//! The application updater's rules: how release notes are shown, how progress is counted,
//! and which error the user sees.
use vstd::prelude::*;
use crate::download::ExclusiveOperationError;
use crate::text::{chars_of, slice_vec, string_of, trim, trim_ws};

verus! {

/// The most characters of release notes that are shown.
pub const MAX_RELEASE_NOTES_CHARS: usize = 12000;

/// Why an update command failed, as the user is told.
#[derive(Debug, Clone, Copy, PartialEq, Eq, Structural)]
pub enum UpdateCommandError {
    CheckFailed,
    OperationInProgress,
    DownloadsInProgress,
    NoPendingUpdate,
    InstallFailed,
}

impl UpdateCommandError {
    /// The message shown for the error.
    pub fn message(&self) -> (r: &'static str)
        ensures
            *self == UpdateCommandError::CheckFailed ==> r@
                == "更新情報を確認できませんでした。ネットワーク接続を確認して、もう一度お試しください。"@,
            *self == UpdateCommandError::OperationInProgress ==> r@
                == "更新処理を開始できませんでした。少し待ってから、もう一度お試しください。"@,
            *self == UpdateCommandError::DownloadsInProgress ==> r@
                == "BOOTH商品のダウンロード中は更新できません。ダウンロード完了後に、もう一度お試しください。"@,
            *self == UpdateCommandError::NoPendingUpdate ==> r@
                == "利用できる更新情報がありません。もう一度更新を確認してください。"@,
            *self == UpdateCommandError::InstallFailed ==> r@
                == "更新をダウンロードまたは適用できませんでした。もう一度お試しください。"@,
    {
        match self {
            UpdateCommandError::CheckFailed => "更新情報を確認できませんでした。ネットワーク接続を確認して、もう一度お試しください。",
            UpdateCommandError::OperationInProgress => "更新処理を開始できませんでした。少し待ってから、もう一度お試しください。",
            UpdateCommandError::DownloadsInProgress => "BOOTH商品のダウンロード中は更新できません。ダウンロード完了後に、もう一度お試しください。",
            UpdateCommandError::NoPendingUpdate => "利用できる更新情報がありません。もう一度更新を確認してください。",
            UpdateCommandError::InstallFailed => "更新をダウンロードまたは適用できませんでした。もう一度お試しください。",
        }
    }
}

/// An update is refused while downloads run, and while another exclusive operation runs.
pub fn map_exclusive_operation_error(error: ExclusiveOperationError) -> (r: UpdateCommandError)
    ensures
        error == ExclusiveOperationError::DownloadsInProgress ==> r
            == UpdateCommandError::DownloadsInProgress,
        error == ExclusiveOperationError::OperationInProgress ==> r
            == UpdateCommandError::OperationInProgress,
{
    match error {
        ExclusiveOperationError::DownloadsInProgress => UpdateCommandError::DownloadsInProgress,
        ExclusiveOperationError::OperationInProgress => UpdateCommandError::OperationInProgress,
    }
}

/// The notes shown for a release: the body trimmed, nothing when it is blank, and at most
/// `MAX_RELEASE_NOTES_CHARS` characters followed by a line with `…` when it is longer.
pub open spec fn release_notes_spec(body: Option<Seq<char>>) -> Option<Seq<char>> {
    match body {
        None => None,
        Some(b) => {
            let t = trim_ws(b);
            if t.len() == 0 {
                None
            } else if t.len() > MAX_RELEASE_NOTES_CHARS {
                Some(t.take(MAX_RELEASE_NOTES_CHARS as int) + seq!['\n', '…'])
            } else {
                Some(t)
            }
        },
    }
}

/// The release notes to show for an update body.
pub fn release_notes(body: Option<&str>) -> (r: Option<String>)
    ensures
        match r {
            Some(n) => release_notes_spec(
                match body {
                    Some(b) => Some(b@),
                    None => None,
                },
            ) == Some(n@),
            None => release_notes_spec(
                match body {
                    Some(b) => Some(b@),
                    None => None,
                },
            ) is None,
        },
{
    let b = match body {
        Some(b) => b,
        None => {
            return None;
        },
    };
    let t = trim(chars_of(b).as_slice());
    if t.len() == 0 {
        return None;
    }
    if t.len() > MAX_RELEASE_NOTES_CHARS {
        let mut notes = slice_vec(t.as_slice(), 0, MAX_RELEASE_NOTES_CHARS);
        notes.push('\n');
        notes.push('…');
        assert(notes@ =~= t@.take(MAX_RELEASE_NOTES_CHARS as int) + seq!['\n', '…']);
        Some(string_of(notes.as_slice()))
    } else {
        Some(string_of(t.as_slice()))
    }
}

/// Release notes are never longer than the limit and its marker, and never blank.
pub proof fn lemma_release_notes_bounded(body: Seq<char>)
    ensures
        release_notes_spec(Some(body)) matches Some(n) ==> 0 < n.len() <= MAX_RELEASE_NOTES_CHARS + 2,
{
}

/// An update offered to the user.
#[derive(Debug, Clone)]
pub struct AvailableUpdate {
    pub current_version: String,
    pub version: String,
    pub notes: Option<String>,
}

impl AvailableUpdate {
    /// The update offered for a release with the given versions and body.
    pub fn new(current_version: String, version: String, body: Option<&str>) -> (r: AvailableUpdate)
        ensures
            r.current_version@ == current_version@,
            r.version@ == version@,
            crate::weburl::opt_view(r.notes) == release_notes_spec(
                match body {
                    Some(b) => Some(b@),
                    None => None,
                },
            ),
    {
        let notes = release_notes(body);
        AvailableUpdate { current_version, version, notes }
    }
}

/// The number of update bytes downloaded after a chunk of `chunk_length` more arrives,
/// saturating at `u64::MAX`.
pub fn downloaded_after(downloaded: u64, chunk_length: usize) -> (r: u64)
    ensures
        downloaded + chunk_length <= u64::MAX ==> r == downloaded + chunk_length,
        downloaded + chunk_length > u64::MAX ==> r == u64::MAX,
{
    downloaded.saturating_add(chunk_length as u64)
}

} // verus!
