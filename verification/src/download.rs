//! The download pipeline's rules: admission against library cleanup, size limits, names
//! taken from responses and archives, and where files end up.
use vstd::prelude::*;
use crate::error::AppError;
use crate::model::{
    DownloadRequest, DownloadRequestView, DownloadState, DownloadStatusEvent, UpsertProductInput,
};
use crate::security::{
    allowed_download_url, is_allowed_download_url, joined, join_path, main_separator,
    path_components, sanitize_chars, sanitized_component, safe_filename_chars, safe_filename_result,
    components_of, drive_prefixed,
};
use crate::text::{
    chars_eq_ignore_ascii_case, chars_of, eq_ignore_ascii_case, has_prefix, last_in, slice_vec,
    split_by, split_in, starts_with, string_of, trim, trim_end_in, trim_in, trim_start_in, trim_ws,
    vec_of,
};
use crate::storage::{hex_encode, hex_text, sha256_digest};
use crate::weburl::{opt_view, percent_decode_utf8, percent_decoded_text, WebUrl};

verus! {

/// The largest file that is downloaded, or extracted from an archive: 4 GiB.
pub const MAX_DOWNLOAD_BYTES: u64 = 4 * 1024 * 1024 * 1024;

/// The most entries an archive may have.
pub const MAX_ARCHIVE_ENTRIES: usize = 20000;

/// The most bytes all files of one archive may expand to: 16 GiB.
pub const MAX_EXPANDED_BYTES: u64 = 16 * 1024 * 1024 * 1024;

/// The most downloads that run at once.
pub const MAX_ACTIVE_DOWNLOADS: usize = 2;

/// The most redirects followed by a download request.
pub const MAX_DOWNLOAD_REDIRECTS: usize = 5;

/// Why a download could not be queued.
#[derive(Debug, Clone, Copy, PartialEq, Eq, Structural)]
pub enum EnqueueError {
    CleanupActive,
    Unavailable,
}

/// Why an operation that needs the library to itself could not start.
#[derive(Debug, Clone, Copy, PartialEq, Eq, Structural)]
pub enum ExclusiveOperationError {
    DownloadsInProgress,
    OperationInProgress,
}

/// The admission state shared by downloads and library-wide operations: how many downloads
/// are queued or running in the library's own queue, how many transfers of the embedded
/// browser are active, and whether a cleanup (or another exclusive operation) holds the
/// library.
pub struct QueueState {
    queued: usize,
    browser: usize,
    cleanup_active: bool,
}

impl QueueState {
    /// The number of downloads queued or running, the browser's transfers included.
    pub closed spec fn pending_count(&self) -> nat {
        (self.queued + self.browser) as nat
    }

    /// The number of active transfers of the embedded browser.
    pub closed spec fn browser_count(&self) -> nat {
        self.browser as nat
    }

    /// Whether an exclusive operation holds the library.
    pub closed spec fn exclusive(&self) -> bool {
        self.cleanup_active
    }

    /// Downloads and an exclusive operation never overlap, at most `MAX_ACTIVE_DOWNLOADS`
    /// transfers of the browser are active, and the total count fits in a `usize`.
    pub closed spec fn wf(&self) -> bool {
        &&& self.cleanup_active ==> self.queued + self.browser == 0
        &&& self.browser <= MAX_ACTIVE_DOWNLOADS
        &&& self.queued + self.browser <= usize::MAX
    }

    /// No download and no exclusive operation.
    pub fn new() -> (r: QueueState)
        ensures
            r.wf(),
            r.pending_count() == 0,
            r.browser_count() == 0,
            !r.exclusive(),
    {
        QueueState { queued: 0, browser: 0, cleanup_active: false }
    }

    /// The number of downloads queued or running, the browser's transfers included.
    pub fn pending_downloads(&self) -> (r: usize)
        requires
            self.wf(),
        ensures
            r == self.pending_count(),
    {
        self.queued + self.browser
    }

    /// Whether a download may be queued now: not while an exclusive operation runs.
    pub fn admission(&self) -> (r: Result<(), EnqueueError>)
        ensures
            r is Ok <==> !self.exclusive(),
            r matches Err(e) ==> e == EnqueueError::CleanupActive,
    {
        if self.cleanup_active {
            Err(EnqueueError::CleanupActive)
        } else {
            Ok(())
        }
    }

    /// Counts a download that was admitted and handed to the queue.
    pub fn record_admitted(&mut self)
        requires
            old(self).wf(),
            !old(self).exclusive(),
            old(self).pending_count() < usize::MAX,
        ensures
            final(self).wf(),
            final(self).pending_count() == old(self).pending_count() + 1,
            final(self).browser_count() == old(self).browser_count(),
            !final(self).exclusive(),
    {
        self.queued = self.queued + 1;
    }

    /// Reserves a slot for a transfer the embedded browser makes: refused while an exclusive
    /// operation runs, and refused as unavailable while `MAX_ACTIVE_DOWNLOADS` transfers are
    /// already active. A refusal leaves the state as it was.
    pub fn try_reserve(&mut self) -> (r: Result<(), EnqueueError>)
        requires
            old(self).wf(),
            old(self).pending_count() < usize::MAX,
        ensures
            final(self).wf(),
            old(self).exclusive() ==> r == Err::<(), EnqueueError>(EnqueueError::CleanupActive),
            !old(self).exclusive() && old(self).browser_count() >= MAX_ACTIVE_DOWNLOADS ==> r
                == Err::<(), EnqueueError>(EnqueueError::Unavailable),
            r is Err ==> final(self).pending_count() == old(self).pending_count()
                && final(self).browser_count() == old(self).browser_count() && final(self).exclusive()
                == old(self).exclusive(),
            !old(self).exclusive() && old(self).browser_count() < MAX_ACTIVE_DOWNLOADS ==> r is Ok
                && final(self).pending_count() == old(self).pending_count() + 1
                && final(self).browser_count() == old(self).browser_count() + 1
                && !final(self).exclusive(),
    {
        if self.cleanup_active {
            return Err(EnqueueError::CleanupActive);
        }
        if self.browser >= MAX_ACTIVE_DOWNLOADS {
            return Err(EnqueueError::Unavailable);
        }
        self.browser = self.browser + 1;
        Ok(())
    }

    /// A download of the library's own queue has ended.
    pub fn finish_pending(&mut self)
        requires
            old(self).wf(),
        ensures
            final(self).wf(),
            final(self).pending_count() == if old(self).pending_count() - old(self).browser_count()
                > 0 {
                old(self).pending_count() - 1
            } else {
                old(self).pending_count() as int
            },
            final(self).browser_count() == old(self).browser_count(),
            final(self).exclusive() == old(self).exclusive(),
    {
        if self.queued > 0 {
            self.queued = self.queued - 1;
        }
    }

    /// A transfer of the embedded browser has ended, and its slot is free again.
    pub fn finish_browser_download(&mut self)
        requires
            old(self).wf(),
        ensures
            final(self).wf(),
            final(self).browser_count() == if old(self).browser_count() > 0 {
                old(self).browser_count() - 1
            } else {
                0
            },
            final(self).pending_count() == if old(self).browser_count() > 0 {
                old(self).pending_count() - 1
            } else {
                old(self).pending_count() as int
            },
            final(self).exclusive() == old(self).exclusive(),
    {
        if self.browser > 0 {
            self.browser = self.browser - 1;
        }
    }

    /// Starts a library cleanup: refused while another one runs or while downloads are
    /// queued or running.
    pub fn begin_cleanup(&mut self) -> (r: Result<(), AppError>)
        requires
            old(self).wf(),
        ensures
            final(self).wf(),
            final(self).pending_count() == old(self).pending_count(),
            final(self).browser_count() == old(self).browser_count(),
            old(self).exclusive() ==> (r matches Err(e) && e is LibraryCleanupInProgress),
            old(self).exclusive() ==> final(self).exclusive(),
            !old(self).exclusive() && old(self).pending_count() > 0 ==> (r matches Err(e)
                && e is DownloadsInProgress),
            !old(self).exclusive() && old(self).pending_count() > 0 ==> !final(self).exclusive(),
            !old(self).exclusive() && old(self).pending_count() == 0 ==> r is Ok && final(self).exclusive(),
    {
        if self.cleanup_active {
            return Err(AppError::LibraryCleanupInProgress);
        }
        if self.queued > 0 || self.browser > 0 {
            return Err(AppError::DownloadsInProgress);
        }
        self.cleanup_active = true;
        Ok(())
    }

    /// Starts an exclusive operation other than a cleanup, such as installing an update.
    pub fn begin_exclusive_operation(&mut self) -> (r: Result<(), ExclusiveOperationError>)
        requires
            old(self).wf(),
        ensures
            final(self).wf(),
            final(self).pending_count() == old(self).pending_count(),
            final(self).browser_count() == old(self).browser_count(),
            old(self).exclusive() ==> r == Err::<(), ExclusiveOperationError>(
                ExclusiveOperationError::OperationInProgress,
            ) && final(self).exclusive(),
            !old(self).exclusive() && old(self).pending_count() > 0 ==> r == Err::<
                (),
                ExclusiveOperationError,
            >(ExclusiveOperationError::DownloadsInProgress) && !final(self).exclusive(),
            !old(self).exclusive() && old(self).pending_count() == 0 ==> r is Ok && final(self).exclusive(),
    {
        if self.cleanup_active {
            return Err(ExclusiveOperationError::OperationInProgress);
        }
        if self.queued > 0 || self.browser > 0 {
            return Err(ExclusiveOperationError::DownloadsInProgress);
        }
        self.cleanup_active = true;
        Ok(())
    }

    /// The exclusive operation has ended.
    pub fn end_cleanup(&mut self)
        requires
            old(self).wf(),
        ensures
            final(self).wf(),
            !final(self).exclusive(),
            final(self).pending_count() == old(self).pending_count(),
            final(self).browser_count() == old(self).browser_count(),
    {
        self.cleanup_active = false;
    }
}

/// Cleanup and download admission are mutually exclusive: in every state the operations
/// reach, an exclusive operation runs only when no download is queued or running, so a
/// download is never admitted during a cleanup and a cleanup never starts during downloads.
pub proof fn lemma_cleanup_excludes_downloads(s: QueueState)
    requires
        s.wf(),
    ensures
        s.exclusive() ==> s.pending_count() == 0,
{
}

/// At most two transfers of the embedded browser are active at once: in every state the
/// operations reach, the count stays within `MAX_ACTIVE_DOWNLOADS`, and once it is reached a
/// further reservation is refused as unavailable before any destination is assigned.
pub proof fn lemma_browser_downloads_are_capped(s: QueueState)
    requires
        s.wf(),
    ensures
        s.browser_count() <= MAX_ACTIVE_DOWNLOADS,
        s.browser_count() <= s.pending_count(),
{
}

/// How a refused reservation is reported to the user.
pub fn reservation_error(error: EnqueueError) -> (r: AppError)
    ensures
        error == EnqueueError::CleanupActive ==> r is LibraryCleanupInProgress,
        error == EnqueueError::Unavailable ==> r is DownloadsInProgress,
{
    match error {
        EnqueueError::CleanupActive => AppError::LibraryCleanupInProgress,
        EnqueueError::Unavailable => AppError::DownloadsInProgress,
    }
}

/// Whether a download request follows a redirect to `target` after `previous` redirects:
/// at most five, and only to BOOTH download addresses.
pub fn follow_download_redirect(previous: usize, target: &WebUrl) -> (r: bool)
    ensures
        r == (previous < MAX_DOWNLOAD_REDIRECTS && allowed_download_url(target@)),
{
    previous < MAX_DOWNLOAD_REDIRECTS && is_allowed_download_url(target)
}

/// A download answer is used only when it came from a BOOTH download address.
pub fn check_download_source(final_url: &WebUrl) -> (r: Result<(), AppError>)
    ensures
        r is Ok <==> allowed_download_url(final_url@),
        r matches Err(e) ==> e is RejectedDownloadUrl,
{
    if is_allowed_download_url(final_url) {
        Ok(())
    } else {
        Err(AppError::RejectedDownloadUrl)
    }
}

/// A download whose announced length exceeds the limit is refused before it starts.
pub fn check_content_length(content_length: Option<u64>) -> (r: Result<(), AppError>)
    ensures
        r is Ok <==> !(content_length matches Some(n) && n > MAX_DOWNLOAD_BYTES),
        r matches Err(e) ==> e is DownloadTooLarge,
{
    match content_length {
        Some(n) => if n > MAX_DOWNLOAD_BYTES {
            Err(AppError::DownloadTooLarge)
        } else {
            Ok(())
        },
        None => Ok(()),
    }
}

/// Adds a received chunk to the bytes downloaded so far; refused once the total exceeds the
/// limit.
pub fn record_download_chunk(received: u64, chunk_len: usize) -> (r: Result<u64, AppError>)
    ensures
        received + chunk_len <= MAX_DOWNLOAD_BYTES ==> r == Ok::<u64, AppError>(
            (received + chunk_len) as u64,
        ),
        received + chunk_len > MAX_DOWNLOAD_BYTES ==> (r matches Err(e) && e is DownloadTooLarge),
{
    let len = chunk_len as u64;
    if len > MAX_DOWNLOAD_BYTES || received > MAX_DOWNLOAD_BYTES - len {
        return Err(AppError::DownloadTooLarge);
    }
    Ok(received + len)
}

/// The running SHA-256 state over the bytes of one download, in the order they arrived.
/// The `sha2::Sha256` hasher is held privately; what it has been fed is named by
/// `digest_input`.
#[verifier::external_body]
pub struct StagingDigest {
    hasher: sha2::Sha256,
}

/// The bytes a digest has been fed so far.
pub uninterp spec fn digest_input(d: StagingDigest) -> Seq<u8>;

/// Calls `sha2::Sha256::new`: a hasher that has been fed nothing.
#[verifier::external_body]
fn digest_new() -> (r: StagingDigest)
    ensures
        digest_input(r) == Seq::<u8>::empty(),
{
    StagingDigest { hasher: <sha2::Sha256 as sha2::Digest>::new() }
}

/// Calls `sha2::Digest::update`: the hasher has then been fed `chunk` after what it had.
#[verifier::external_body]
fn digest_update(d: &mut StagingDigest, chunk: &[u8])
    ensures
        digest_input(*final(d)) == digest_input(*old(d)) + chunk@,
{
    <sha2::Sha256 as sha2::Digest>::update(&mut d.hasher, chunk)
}

/// Calls `sha2::Digest::finalize`: the 32-byte SHA-256 digest of everything fed, the same
/// digest `sha2::Sha256::digest` gives for those bytes at once.
#[verifier::external_body]
fn digest_finish(d: StagingDigest) -> (r: Vec<u8>)
    ensures
        r@ == sha256_digest(digest_input(d)),
        r@.len() == 32,
{
    <sha2::Sha256 as sha2::Digest>::finalize(d.hasher).to_vec()
}

impl StagingDigest {
    /// A digest of no bytes yet.
    pub fn new() -> (r: StagingDigest)
        ensures
            digest_input(r) == Seq::<u8>::empty(),
    {
        digest_new()
    }

    /// The lower-case hexadecimal SHA-256 digest of every byte fed, as it is recorded for a
    /// downloaded file.
    pub fn finish_hex(self) -> (r: String)
        ensures
            r@ == hex_text(sha256_digest(digest_input(self))),
            r@.len() == 64,
    {
        let bytes = digest_finish(self);
        proof {
            lemma_hex_text_len(bytes@);
        }
        hex_encode(bytes.as_slice())
    }
}

/// Hex text has two digits per byte.
proof fn lemma_hex_text_len(bytes: Seq<u8>)
    ensures
        hex_text(bytes).len() == 2 * bytes.len(),
    decreases bytes.len(),
{
    if bytes.len() > 0 {
        lemma_hex_text_len(bytes.drop_last());
    }
}

/// Accounts for one received chunk of a download, as `record_download_chunk` does, and feeds
/// it to the digest when it is accepted; a refused chunk leaves the digest as it was.
pub fn staging_chunk(digest: &mut StagingDigest, received: u64, chunk: &[u8]) -> (r: Result<u64, AppError>)
    ensures
        received + chunk@.len() <= MAX_DOWNLOAD_BYTES ==> r == Ok::<u64, AppError>(
            (received + chunk@.len()) as u64,
        ),
        received + chunk@.len() > MAX_DOWNLOAD_BYTES ==> (r matches Err(e) && e is DownloadTooLarge),
        r is Ok ==> digest_input(*final(digest)) == digest_input(*old(digest)) + chunk@,
        r is Err ==> digest_input(*final(digest)) == digest_input(*old(digest)),
{
    let total = record_download_chunk(received, chunk.len())?;
    digest_update(digest, chunk);
    Ok(total)
}

/// The status notification of a download: its request, the new state and a message.
pub fn status_event(request: &DownloadRequest, state: DownloadState, message: String) -> (r:
    DownloadStatusEvent)
    ensures
        r.request_id@ == request.request_id@,
        r.item_id == Some(request.item_id),
        opt_view(r.filename) == Some(request.filename@),
        r.state == state,
        r.message@ == message@,
{
    DownloadStatusEvent {
        request_id: request.request_id.clone(),
        item_id: Some(request.item_id),
        filename: Some(request.filename.clone()),
        state,
        message,
    }
}

/// The text shown when a download is refused because two are already running.
pub open spec fn busy_message() -> Seq<char> {
    "Two downloads are already active. Please click download again after they finish."@
}

/// The failure notification for a download refused because two are already running.
pub fn busy_event(request: &DownloadRequest) -> (r: DownloadStatusEvent)
    ensures
        r.request_id@ == request.request_id@,
        r.item_id == Some(request.item_id),
        opt_view(r.filename) == Some(request.filename@),
        r.state == DownloadState::Failed,
        r.message@ == busy_message(),
{
    status_event(
        request,
        DownloadState::Failed,
        "Two downloads are already active. Please click download again after they finish.".to_owned(),
    )
}

/// Where a finished download went.
pub enum ProcessOutcome {
    /// The file was downloaded and stored at this path.
    Downloaded(String),
    /// The file was already in the library at this path; nothing was downloaded.
    AlreadyDownloaded(String),
}

/// The message reported for a finished download: `Saved to {path}` or
/// `Already downloaded at {path}`.
pub open spec fn outcome_message(outcome: ProcessOutcome) -> Seq<char> {
    match outcome {
        ProcessOutcome::Downloaded(p) => "Saved to "@ + p@,
        ProcessOutcome::AlreadyDownloaded(p) => "Already downloaded at "@ + p@,
    }
}

pub(crate) fn concat(a: &str, b: &str) -> (r: String)
    ensures
        r@ == a@ + b@,
{
    let mut out = chars_of(a);
    let tail = chars_of(b);
    let ghost start = out@;
    let mut i: usize = 0;
    while i < tail.len()
        invariant
            i <= tail@.len(),
            out@ == start + tail@.take(i as int),
        decreases tail.len() - i,
    {
        out.push(tail[i]);
        assert(tail@.take(i as int + 1) =~= tail@.take(i as int).push(tail@[i as int]));
        i += 1;
    }
    assert(tail@.take(tail@.len() as int) =~= tail@);
    string_of(out.as_slice())
}

/// The completion notification of a download.
pub fn completed_event(request: &DownloadRequest, outcome: &ProcessOutcome) -> (r:
    DownloadStatusEvent)
    ensures
        r.request_id@ == request.request_id@,
        r.item_id == Some(request.item_id),
        opt_view(r.filename) == Some(request.filename@),
        r.state == DownloadState::Completed,
        r.message@ == outcome_message(*outcome),
{
    let message = match outcome {
        ProcessOutcome::Downloaded(p) => concat("Saved to ", p.as_str()),
        ProcessOutcome::AlreadyDownloaded(p) => concat("Already downloaded at ", p.as_str()),
    };
    status_event(request, DownloadState::Completed, message)
}


/// The `;`-separated parts of a `Content-Disposition` value, each trimmed.
pub open spec fn disposition_parts(value: Seq<char>) -> Seq<Seq<char>> {
    split_in(value, seq![';']).map_values(|p: Seq<char>| trim_ws(p))
}

/// The parameter that carries a percent-encoded UTF-8 file name.
pub open spec fn extended_prefix() -> Seq<char> {
    "filename*=UTF-8''"@
}

/// The parameter that carries a plain file name.
pub open spec fn plain_prefix() -> Seq<char> {
    "filename="@
}

/// The first acceptable `filename*=UTF-8''` name among `parts`: `Some(Some(name))` when one
/// is found, `Some(None)` when a value before it is not valid percent-encoded UTF-8 (which
/// ends the search), `None` when there is none.
pub open spec fn extended_filename(parts: Seq<Seq<char>>) -> Option<Option<Seq<char>>>
    decreases parts.len(),
{
    if parts.len() == 0 {
        None
    } else if has_prefix(parts[0], extended_prefix()) {
        match percent_decoded_text(parts[0].skip(extended_prefix().len() as int)) {
            None => Some(None),
            Some(decoded) => match safe_filename_result(decoded) {
                Some(name) => Some(Some(name)),
                None => extended_filename(parts.drop_first()),
            },
        }
    } else {
        extended_filename(parts.drop_first())
    }
}

/// `s` without the double quotes around it.
pub open spec fn unquoted(s: Seq<char>) -> Seq<char> {
    trim_end_in(trim_start_in(s, seq!['"']), seq!['"'])
}

/// The first acceptable `filename=` name among `parts`.
pub open spec fn plain_filename(parts: Seq<Seq<char>>) -> Option<Seq<char>>
    decreases parts.len(),
{
    if parts.len() == 0 {
        None
    } else if has_prefix(parts[0], plain_prefix()) {
        match safe_filename_result(unquoted(parts[0].skip(plain_prefix().len() as int))) {
            Some(name) => Some(name),
            None => plain_filename(parts.drop_first()),
        }
    } else {
        plain_filename(parts.drop_first())
    }
}

/// The file name a `Content-Disposition` value names: an acceptable `filename*` first, else an
/// acceptable `filename`; only names that `safe_filename` accepts, sanitized.
pub open spec fn content_disposition_filename(value: Seq<char>) -> Option<Seq<char>> {
    let parts = disposition_parts(value);
    match extended_filename(parts) {
        Some(found) => found,
        None => plain_filename(parts),
    }
}

/// Reads the download's file name from a `Content-Disposition` header value.
pub fn filename_from_content_disposition(value: &str) -> (r: Option<String>)
    ensures
        match r {
            Some(name) => content_disposition_filename(value@) == Some(name@),
            None => content_disposition_filename(value@) is None,
        },
{
    let semicolon = vec![';'];
    assert(semicolon@ =~= seq![';']);
    let pieces = split_by(chars_of(value).as_slice(), semicolon.as_slice());
    let ghost parts = disposition_parts(value@);
    assert(parts.len() == pieces.deep_view().len());
    let ext = chars_of("filename*=UTF-8''");
    let plain = chars_of("filename=");
    proof {
        reveal_strlit("filename*=UTF-8''");
        reveal_strlit("filename=");
    }
    let mut i: usize = 0;
    assert(parts.skip(0) =~= parts);
    while i < pieces.len()
        invariant
            i <= pieces.len(),
            parts == disposition_parts(value@),
            parts.len() == pieces.deep_view().len(),
            pieces.deep_view() == split_in(value@, seq![';']),
            ext@ == extended_prefix(),
            extended_filename(parts) == extended_filename(parts.skip(i as int)),
        decreases pieces.len() - i,
    {
        let part = trim(pieces[i].as_slice());
        assert(pieces[i as int].deep_view() =~= pieces[i as int]@);
        assert(part@ == parts[i as int]);
        assert(parts.skip(i as int)[0] == parts[i as int]);
        assert(parts.skip(i as int).drop_first() =~= parts.skip(i as int + 1));
        if starts_with(part.as_slice(), ext.as_slice()) {
            let encoded = string_of(slice_vec(part.as_slice(), ext.len(), part.len()).as_slice());
            assert(part@.subrange(ext@.len() as int, part@.len() as int) =~= part@.skip(
                ext@.len() as int,
            ));
            match percent_decode_utf8(encoded.as_str()) {
                None => {
                    return None;
                },
                Some(decoded) => {
                    match safe_filename_chars(chars_of(decoded.as_str()).as_slice()) {
                        Some(name) => {
                            return Some(string_of(name.as_slice()));
                        },
                        None => {},
                    }
                },
            }
        }
        i += 1;
    }
    assert(parts.skip(i as int).len() == 0);
    assert(extended_filename(parts) is None);
    let mut j: usize = 0;
    assert(parts.skip(0) =~= parts);
    while j < pieces.len()
        invariant
            j <= pieces.len(),
            parts == disposition_parts(value@),
            parts.len() == pieces.deep_view().len(),
            pieces.deep_view() == split_in(value@, seq![';']),
            plain@ == plain_prefix(),
            extended_filename(parts) is None,
            plain_filename(parts) == plain_filename(parts.skip(j as int)),
        decreases pieces.len() - j,
    {
        let part = trim(pieces[j].as_slice());
        assert(pieces[j as int].deep_view() =~= pieces[j as int]@);
        assert(part@ == parts[j as int]);
        assert(parts.skip(j as int)[0] == parts[j as int]);
        assert(parts.skip(j as int).drop_first() =~= parts.skip(j as int + 1));
        if starts_with(part.as_slice(), plain.as_slice()) {
            let rest = slice_vec(part.as_slice(), plain.len(), part.len());
            assert(rest@ =~= part@.skip(plain@.len() as int));
            let quote = vec!['"'];
            assert(quote@ =~= seq!['"']);
            let name = trim_in(rest.as_slice(), quote.as_slice());
            match safe_filename_chars(name.as_slice()) {
                Some(safe) => {
                    return Some(string_of(safe.as_slice()));
                },
                None => {},
            }
        }
        j += 1;
    }
    assert(parts.skip(j as int).len() == 0);
    None
}


/// The last component of a path, when it is an ordinary name (not `.` or `..`), as
/// `Path::file_name` gives it.
pub open spec fn file_name_of(p: Seq<char>) -> Option<Seq<char>> {
    let rest = if drive_prefixed(p) {
        p.skip(2)
    } else {
        p
    };
    let c = path_components(rest);
    if c.len() > 0 && c.last() != seq!['.'] && c.last() != seq!['.', '.'] {
        Some(c.last())
    } else {
        None
    }
}

/// The extension of a file name: the text after its last `.`, unless that `.` is the first
/// character.
pub open spec fn extension_of(name: Seq<char>) -> Option<Seq<char>> {
    let k = last_in(name, seq!['.']);
    if k <= 0 {
        None
    } else {
        Some(name.skip(k + 1))
    }
}

/// The stem of a file name: the text before its last `.`, unless that `.` is the first
/// character.
pub open spec fn file_stem_of(name: Seq<char>) -> Seq<char> {
    let k = last_in(name, seq!['.']);
    if k <= 0 {
        name
    } else {
        name.take(k)
    }
}

/// A file name whose extension is `zip` in any ASCII case.
pub open spec fn zip_filename(filename: Seq<char>) -> bool {
    file_name_of(filename) matches Some(name) && extension_of(name) matches Some(ext)
        && eq_ignore_ascii_case(ext, "zip"@)
}

fn last_dot(s: &[char]) -> (r: usize)
    ensures
        last_in(s@, seq!['.']) == r - 1,
        r <= s@.len(),
{
    let mut k: usize = s.len();
    while k > 0 && s[k - 1] != '.'
        invariant
            k <= s@.len(),
            forall|j: int| k <= j < s@.len() ==> !seq!['.'].contains(#[trigger] s@[j]),
        decreases k,
    {
        assert(!seq!['.'].contains(s@[k - 1])) by {
            if seq!['.'].contains(s@[k - 1]) {
                assert(seq!['.'][0] == '.');
            }
        }
        k -= 1;
    }
    proof {
        if k > 0 {
            assert(seq!['.'][0] == '.');
            assert(seq!['.'].contains(s@[k - 1]));
        }
        crate::text::lemma_last_in_is(s@, seq!['.'], k - 1);
    }
    k
}

fn file_name_chars(p: &[char]) -> (r: Option<Vec<char>>)
    ensures
        match r {
            Some(n) => file_name_of(p@) == Some(n@),
            None => file_name_of(p@) is None,
        },
{
    let drive = p.len() >= 2 && (('a' <= p[0] && p[0] <= 'z') || ('A' <= p[0] && p[0] <= 'Z'))
        && p[1] == ':';
    let rest = if drive {
        slice_vec(p, 2, p.len())
    } else {
        vec_of(p)
    };
    assert(rest@ =~= (if drive_prefixed(p@) {
        p@.skip(2)
    } else {
        p@
    }));
    let comps = components_of(rest.as_slice());
    if comps.len() == 0 {
        return None;
    }
    let last = &comps[comps.len() - 1];
    assert(last.deep_view() =~= last@);
    assert(comps.deep_view().last() == last@);
    let is_dot = last.len() == 1 && last[0] == '.';
    let is_dots = last.len() == 2 && last[0] == '.' && last[1] == '.';
    proof {
        if is_dot {
            assert(last@ =~= seq!['.']);
        }
        if is_dots {
            assert(last@ =~= seq!['.', '.']);
        }
        if last@ =~= seq!['.'] {
            assert(last@.len() == 1);
        }
        if last@ =~= seq!['.', '.'] {
            assert(last@.len() == 2);
        }
    }
    if is_dot || is_dots {
        None
    } else {
        Some(vec_of(last.as_slice()))
    }
}

/// Whether a download's file name marks a ZIP archive, by its extension in any case.
pub fn is_zip_filename(filename: &str) -> (r: bool)
    ensures
        r == zip_filename(filename@),
{
    match file_name_chars(chars_of(filename).as_slice()) {
        Some(name) => {
            let k = last_dot(name.as_slice());
            if k <= 1 {
                return false;
            }
            let ext = slice_vec(name.as_slice(), k, name.len());
            assert(ext@ =~= name@.skip(k as int));
            chars_eq_ignore_ascii_case(ext.as_slice(), chars_of("zip").as_slice())
        },
        None => false,
    }
}

/// The folder name an extracted archive is published under: the sanitized stem of its file
/// name, or `archive`.
pub open spec fn archive_stem_spec(filename: Seq<char>) -> Seq<char> {
    match file_name_of(filename) {
        Some(name) => sanitized_component(file_stem_of(name), "archive"@),
        None => "archive"@,
    }
}

/// The folder name an extracted archive is published under.
pub fn archive_stem(filename: &str) -> (r: String)
    ensures
        r@ == archive_stem_spec(filename@),
{
    match file_name_chars(chars_of(filename).as_slice()) {
        Some(name) => {
            let k = last_dot(name.as_slice());
            let stem = if k <= 1 {
                vec_of(name.as_slice())
            } else {
                slice_vec(name.as_slice(), 0, k - 1)
            };
            assert(stem@ =~= file_stem_of(name@));
            string_of(sanitize_chars(stem.as_slice(), "archive").as_slice())
        },
        None => "archive".to_owned(),
    }
}

/// The names of a path joined in order, as successive `PathBuf::push` calls join them.
pub open spec fn joined_all(pieces: Seq<Seq<char>>, sep: char) -> Seq<char>
    decreases pieces.len(),
{
    if pieces.len() == 0 {
        Seq::empty()
    } else {
        joined(joined_all(pieces.drop_last(), sep), pieces.last(), sep)
    }
}

/// An archive entry path is safe when it is relative and every component is an ordinary
/// name: no root, no drive prefix, no `.` or `..`.
pub open spec fn archive_path_safe(p: Seq<char>) -> bool {
    &&& !(p.len() > 0 && (p[0] == '/' || p[0] == '\\'))
    &&& !drive_prefixed(p)
    &&& forall|i: int|
        0 <= i < path_components(p).len() ==> (#[trigger] path_components(p)[i]) != seq!['.']
            && path_components(p)[i] != seq!['.', '.']
}

/// The components of an archive entry path, each sanitized.
pub open spec fn sanitized_archive_pieces(p: Seq<char>) -> Seq<Seq<char>> {
    path_components(p).map_values(|c: Seq<char>| sanitized_component(c, "unnamed"@))
}

/// The relative path an archive entry is extracted to on a machine whose separator is
/// `sep`, or the message of the refusal.
pub open spec fn archive_path_spec(p: Seq<char>, sep: char) -> Result<Seq<char>, Seq<char>> {
    if !archive_path_safe(p) {
        Err("the archive contains an unsafe path"@)
    } else if path_components(p).len() == 0 {
        Err("the archive contains an empty path"@)
    } else {
        Ok(joined_all(sanitized_archive_pieces(p), sep))
    }
}

/// The view of a path result: the path, or the message of an archive error.
pub open spec fn archive_result_view(r: Result<String, AppError>) -> Result<Seq<char>, Seq<char>> {
    match r {
        Ok(s) => Ok(s@),
        Err(e) => match e {
            AppError::Archive(m) => Err(m@),
            _ => Err(Seq::empty()),
        },
    }
}

/// An archive error with the given message.
pub fn archive_error(message: &str) -> (r: AppError)
    ensures
        r matches AppError::Archive(m) && m@ == message@,
{
    AppError::Archive(message.to_owned())
}

/// Checks an archive entry path and sanitizes each of its components; the result is
/// relative and stays below the extraction folder. Its components are joined with this
/// machine's separator.
pub fn sanitize_archive_path(path: &str) -> (r: Result<String, AppError>)
    ensures
        r matches Err(e) ==> e is Archive,
        archive_result_view(r) == archive_path_spec(path@, '/') || archive_result_view(r)
            == archive_path_spec(path@, '\\'),
{
    sanitize_archive_path_with(path, main_separator())
}

/// `sanitize_archive_path` with the components joined by `sep`.
pub fn sanitize_archive_path_with(path: &str, sep: char) -> (r: Result<String, AppError>)
    ensures
        r matches Err(e) ==> e is Archive,
        archive_result_view(r) == archive_path_spec(path@, sep),
{
    let p = chars_of(path);
    let drive = p.len() >= 2 && (('a' <= p[0] && p[0] <= 'z') || ('A' <= p[0] && p[0] <= 'Z'))
        && p[1] == ':';
    if (p.len() > 0 && (p[0] == '/' || p[0] == '\\')) || drive {
        return Err(archive_error("the archive contains an unsafe path"));
    }
    let comps = components_of(p.as_slice());
    let mut out: Vec<char> = Vec::new();
    let mut i: usize = 0;
    assert(comps.deep_view().take(0) =~= Seq::<Seq<char>>::empty());
    assert(sanitized_archive_pieces(p@).take(0) =~= Seq::<Seq<char>>::empty());
    while i < comps.len()
        invariant
            i <= comps.len(),
            p@ == path@,
            comps.deep_view() == path_components(p@),
            forall|j: int| 0 <= j < i ==> (#[trigger] path_components(p@)[j]) != seq!['.']
                && path_components(p@)[j] != seq!['.', '.'],
            out@ == joined_all(sanitized_archive_pieces(p@).take(i as int), sep),
        decreases comps.len() - i,
    {
        let c = &comps[i];
        assert(c.deep_view() =~= c@);
        assert(comps.deep_view()[i as int] == c@);
        let is_dot = c.len() == 1 && c[0] == '.';
        let is_dots = c.len() == 2 && c[0] == '.' && c[1] == '.';
        proof {
            if is_dot {
                assert(c@ =~= seq!['.']);
            }
            if is_dots {
                assert(c@ =~= seq!['.', '.']);
            }
            if c@ =~= seq!['.'] {
                assert(c@.len() == 1);
            }
            if c@ =~= seq!['.', '.'] {
                assert(c@.len() == 2);
            }
        }
        if is_dot || is_dots {
            assert(path_components(p@)[i as int] == c@);
            assert(!archive_path_safe(p@));
            return Err(archive_error("the archive contains an unsafe path"));
        }
        let piece = sanitize_chars(c.as_slice(), "unnamed");
        assert(sanitized_archive_pieces(p@).take(i as int + 1).drop_last() =~= sanitized_archive_pieces(
            p@,
        ).take(i as int));
        out = join_path(out.as_slice(), piece.as_slice(), sep);
        i += 1;
    }
    assert(sanitized_archive_pieces(p@).take(comps.len() as int) =~= sanitized_archive_pieces(p@));
    if comps.len() == 0 {
        return Err(archive_error("the archive contains an empty path"));
    }
    Ok(string_of(out.as_slice()))
}


/// Checks an archive before anything is extracted: at most `MAX_ARCHIVE_ENTRIES` entries,
/// and no more than `MAX_EXPANDED_BYTES` once expanded, when the archive tells its size.
pub fn check_archive(entry_count: usize, decompressed_size: Option<u128>) -> (r: Result<(), AppError>)
    ensures
        entry_count > MAX_ARCHIVE_ENTRIES ==> (r matches Err(AppError::Archive(m)) && m@
            == "the archive contains more than 20000 entries"@),
        entry_count <= MAX_ARCHIVE_ENTRIES && (decompressed_size matches Some(n) && n
            > MAX_EXPANDED_BYTES) ==> (r matches Err(AppError::Archive(m)) && m@
            == "the expanded archive exceeds the size limit"@),
        entry_count <= MAX_ARCHIVE_ENTRIES && !(decompressed_size matches Some(n) && n
            > MAX_EXPANDED_BYTES) ==> r is Ok,
{
    if entry_count > MAX_ARCHIVE_ENTRIES {
        return Err(archive_error("the archive contains more than 20000 entries"));
    }
    match decompressed_size {
        Some(n) => if n > MAX_EXPANDED_BYTES as u128 {
            return Err(archive_error("the expanded archive exceeds the size limit"));
        },
        None => {},
    }
    Ok(())
}

/// What the archive reports about one entry.
pub struct ZipEntryInfo {
    pub encrypted: bool,
    pub symlink: bool,
    /// The entry's path when it stays within the extraction folder, as
    /// `ZipFile::enclosed_name` reports it.
    pub enclosed_name: Option<String>,
    pub is_dir: bool,
    pub is_file: bool,
    pub size: u64,
}

/// What to do with an archive entry: create a directory, or extract a file, at the given
/// relative path.
pub enum EntryPlan {
    Directory(String),
    File(String),
}

/// The view of an entry plan, or of the message of its refusal.
pub open spec fn entry_plan_view(r: Result<EntryPlan, AppError>) -> Result<(bool, Seq<char>), Seq<
    char,
>> {
    match r {
        Ok(EntryPlan::Directory(p)) => Ok((true, p@)),
        Ok(EntryPlan::File(p)) => Ok((false, p@)),
        Err(AppError::Archive(m)) => Err(m@),
        Err(_) => Err(Seq::empty()),
    }
}

/// The plan for an entry on a machine whose separator is `sep`: encrypted entries, links,
/// paths outside the folder, unsafe paths, special entries and files over the size limit are
/// refused; the first boolean tells a directory.
pub open spec fn entry_plan_spec(e: ZipEntryInfo, sep: char) -> Result<(bool, Seq<char>), Seq<char>> {
    if e.encrypted {
        Err("password-protected ZIP archives are not supported"@)
    } else if e.symlink {
        Err("symbolic links are not allowed in ZIP archives"@)
    } else if e.enclosed_name is None {
        Err("an archive entry points outside the destination"@)
    } else {
        match archive_path_spec(e.enclosed_name->Some_0@, sep) {
            Err(m) => Err(m),
            Ok(relative) => if e.is_dir {
                Ok((true, relative))
            } else if !e.is_file {
                Err("the archive contains an unsupported entry type"@)
            } else if e.size > MAX_DOWNLOAD_BYTES {
                Err("an extracted file exceeds the size limit"@)
            } else {
                Ok((false, relative))
            },
        }
    }
}

/// Decides what to do with one archive entry; paths are joined with this machine's
/// separator.
pub fn plan_zip_entry(entry: &ZipEntryInfo) -> (r: Result<EntryPlan, AppError>)
    ensures
        r matches Err(e) ==> e is Archive,
        entry_plan_view(r) == entry_plan_spec(*entry, '/') || entry_plan_view(r) == entry_plan_spec(
            *entry,
            '\\',
        ),
{
    plan_zip_entry_with(entry, main_separator())
}

/// `plan_zip_entry` with paths joined by `sep`.
pub fn plan_zip_entry_with(entry: &ZipEntryInfo, sep: char) -> (r: Result<EntryPlan, AppError>)
    ensures
        r matches Err(e) ==> e is Archive,
        entry_plan_view(r) == entry_plan_spec(*entry, sep),
{
    if entry.encrypted {
        return Err(archive_error("password-protected ZIP archives are not supported"));
    }
    if entry.symlink {
        return Err(archive_error("symbolic links are not allowed in ZIP archives"));
    }
    let name = match &entry.enclosed_name {
        Some(n) => n,
        None => {
            return Err(archive_error("an archive entry points outside the destination"));
        },
    };
    let relative = match sanitize_archive_path_with(name.as_str(), sep) {
        Ok(p) => p,
        Err(e) => {
            return Err(e);
        },
    };
    if entry.is_dir {
        return Ok(EntryPlan::Directory(relative));
    }
    if !entry.is_file {
        return Err(archive_error("the archive contains an unsupported entry type"));
    }
    if entry.size > MAX_DOWNLOAD_BYTES {
        return Err(archive_error("an extracted file exceeds the size limit"));
    }
    Ok(EntryPlan::File(relative))
}

/// The bytes written and files extracted so far from one archive.
pub struct ExtractionProgress {
    pub total_written: u64,
    pub extracted_files: usize,
}

impl ExtractionProgress {
    /// Nothing extracted yet.
    pub fn new() -> (r: ExtractionProgress)
        ensures
            r.total_written == 0,
            r.extracted_files == 0,
    {
        ExtractionProgress { total_written: 0, extracted_files: 0 }
    }

    /// Counts `read` more bytes written; refused when the total would pass
    /// `MAX_EXPANDED_BYTES`, so the total written never exceeds it.
    pub fn record_read(&mut self, read: usize) -> (r: Result<(), AppError>)
        ensures
            old(self).total_written + read > u64::MAX ==> (r matches Err(AppError::Archive(m))
                && m@ == "expanded size overflow"@),
            old(self).total_written + read <= u64::MAX && old(self).total_written + read
                > MAX_EXPANDED_BYTES ==> (r matches Err(AppError::Archive(m)) && m@
                == "the expanded archive exceeds the size limit"@),
            old(self).total_written + read <= MAX_EXPANDED_BYTES ==> r is Ok
                && final(self).total_written == old(self).total_written + read,
            final(self).extracted_files == old(self).extracted_files,
            r is Ok ==> final(self).total_written <= MAX_EXPANDED_BYTES,
    {
        let n = read as u64;
        if self.total_written > u64::MAX - n {
            return Err(archive_error("expanded size overflow"));
        }
        let total = self.total_written + n;
        if total > MAX_EXPANDED_BYTES {
            self.total_written = total;
            return Err(archive_error("the expanded archive exceeds the size limit"));
        }
        self.total_written = total;
        Ok(())
    }

    /// Counts one more file extracted.
    pub fn record_file(&mut self)
        requires
            old(self).extracted_files < usize::MAX,
        ensures
            final(self).extracted_files == old(self).extracted_files + 1,
            final(self).total_written == old(self).total_written,
    {
        self.extracted_files = self.extracted_files + 1;
    }

    /// The number of files extracted; an archive without files is refused.
    pub fn finish(&self) -> (r: Result<usize, AppError>)
        ensures
            self.extracted_files == 0 ==> (r matches Err(AppError::Archive(m)) && m@
                == "the archive did not contain files"@),
            self.extracted_files > 0 ==> r == Ok::<usize, AppError>(self.extracted_files),
    {
        if self.extracted_files == 0 {
            Err(archive_error("the archive did not contain files"))
        } else {
            Ok(self.extracted_files)
        }
    }
}

/// What the extraction folder's listing shows of one entry: its name when it is valid
/// Unicode, and whether it is a directory, when that could be read.
pub struct ExtractedEntry {
    pub name: Option<String>,
    pub is_dir: Option<bool>,
}

/// The extracted archive is one directory named like the archive (in any ASCII case), so
/// its contents are published without that extra level. `entries` holds the folder's first
/// entries as listed (`None` for an entry that could not be read); two are enough to decide.
pub open spec fn redundant_single_root_spec(entries: Seq<Option<ExtractedEntry>>, stem: Seq<char>) -> bool {
    &&& entries.len() == 1
    &&& entries[0] matches Some(e)
    &&& e.is_dir == Some(true)
    &&& e.name matches Some(n) && eq_ignore_ascii_case(n@, stem)
}

/// Whether the extracted folder holds a single directory named like the archive.
pub fn is_redundant_single_root(entries: &Vec<Option<ExtractedEntry>>, archive_stem: &str) -> (r: bool)
    ensures
        r == redundant_single_root_spec(entries@, archive_stem@),
{
    if entries.len() != 1 {
        return false;
    }
    match &entries[0] {
        Some(e) => {
            if e.is_dir != Some(true) {
                return false;
            }
            match &e.name {
                Some(n) => chars_eq_ignore_ascii_case(
                    chars_of(n.as_str()).as_slice(),
                    chars_of(archive_stem).as_slice(),
                ),
                None => false,
            }
        },
        None => false,
    }
}

/// The request as finally recorded: the file name the response announced replaces the one
/// requested, and fetched product metadata replaces the names the request carried.
pub open spec fn enriched_view(
    request: DownloadRequestView,
    response_filename: Option<Seq<char>>,
    product: Option<(Seq<char>, Seq<char>)>,
) -> DownloadRequestView {
    DownloadRequestView {
        filename: match response_filename {
            Some(f) => f,
            None => request.filename,
        },
        product_name: match product {
            Some(p) => Some(p.0),
            None => request.product_name,
        },
        shop_name: match product {
            Some(p) => Some(p.1),
            None => request.shop_name,
        },
        ..request
    }
}

/// Completes a request with what the download and the product page told.
pub fn enrich_request(
    request: &DownloadRequest,
    response_filename: Option<String>,
    product: Option<&UpsertProductInput>,
) -> (r: DownloadRequest)
    ensures
        r@ == enriched_view(
            request@,
            opt_view(response_filename),
            match product {
                Some(p) => Some((p.name@, p.shop_name@)),
                None => None,
            },
        ),
{
    let filename = match response_filename {
        Some(f) => f,
        None => request.filename.clone(),
    };
    let (product_name, shop_name) = match product {
        Some(p) => (Some(p.name.clone()), Some(p.shop_name.clone())),
        None => (
            crate::webview::copy_opt(&request.product_name),
            crate::webview::copy_opt(&request.shop_name),
        ),
    };
    DownloadRequest {
        request_id: request.request_id.clone(),
        item_id: request.item_id,
        variation_id: request.variation_id,
        downloadable_id: request.downloadable_id,
        product_name,
        shop_name,
        filename,
        signed_url: crate::webview::copy_opt(&request.signed_url),
    }
}

/// The folder below the library root where downloads are written before they are published.
pub const STAGING_DIRECTORY: &'static str = ".booth-shelf-staging";

/// The name of the staging file of a download: `{id}.part`.
pub fn staging_file_name(id: &str) -> (r: String)
    ensures
        r@ == id@ + ".part"@,
{
    concat(id, ".part")
}


/// Every component an archive entry is extracted under is a plain name: never `.` or `..`,
/// never holding a separator, a colon or another character Windows refuses. Extraction
/// therefore cannot leave the extraction folder.
pub proof fn lemma_archive_pieces_are_plain(p: Seq<char>)
    ensures
        forall|i: int|
            0 <= i < sanitized_archive_pieces(p).len() ==> {
                let piece = #[trigger] sanitized_archive_pieces(p)[i];
                &&& piece.len() > 0
                &&& piece != seq!['.']
                &&& piece != seq!['.', '.']
                &&& crate::security::plain_chars(piece)
            },
{
    reveal_strlit("unnamed");
    assert(crate::security::plain_chars("unnamed"@));
    assert("unnamed"@.len() == 7);
    assert("unnamed"@ != seq!['.']);
    assert("unnamed"@ != seq!['.', '.']);
    assert forall|i: int| 0 <= i < sanitized_archive_pieces(p).len() implies {
        let piece = #[trigger] sanitized_archive_pieces(p)[i];
        &&& piece.len() > 0
        &&& piece != seq!['.']
        &&& piece != seq!['.', '.']
        &&& crate::security::plain_chars(piece)
    } by {
        crate::security::lemma_sanitized_component_is_plain(path_components(p)[i], "unnamed"@);
    }
}

/// For a file name `s.e` (no separator or `:` in it, no `.` in the extension `e`), the
/// extracted folder is named after the sanitized text before the last `.`: everything of `s`,
/// whatever dots it holds, and nothing of the extension.
pub proof fn lemma_archive_stem_drops_only_the_extension(s: Seq<char>, e: Seq<char>)
    requires
        s.len() > 0,
        !(s == seq!['.'] && e.len() == 0),
        forall|i: int| 0 <= i < s.len() ==> #[trigger] s[i] != '/' && s[i] != '\\' && s[i] != ':',
        forall|i: int| 0 <= i < e.len() ==> #[trigger] e[i] != '/' && e[i] != '\\' && e[i] != ':'
            && e[i] != '.',
    ensures
        archive_stem_spec(s + seq!['.'] + e) == sanitized_component(s, "archive"@),
{
    let p = s + seq!['.'] + e;
    let k = s.len() as int;
    assert(p[k] == '.');
    assert forall|i: int| 0 <= i < p.len() implies p[i] != '/' && p[i] != '\\' && p[i] != ':' by {
        if i < k {
            assert(p[i] == s[i]);
        } else if i > k {
            assert(p[i] == e[i - k - 1]);
        }
    }
    assert(!drive_prefixed(p));
    let seps = crate::security::path_seps();
    assert(seps[0] == '/' && seps[1] == '\\');
    assert forall|j: int| -1 < j < p.len() implies !seps.contains(#[trigger] p[j]) by {
        if seps.contains(p[j]) {
            let t = choose|t: int| 0 <= t < seps.len() && seps[t] == p[j];
        }
    }
    crate::text::lemma_last_in_is(p, seps, -1);
    assert(split_in(p, seps) == seq![p]);
    assert(seq![p].drop_last() =~= Seq::<Seq<char>>::empty());
    assert(p != seq!['.']) by {
        if p == seq!['.'] {
            assert(p.len() == 1);
        }
    }
    assert(p != seq!['.', '.']) by {
        if p == seq!['.', '.'] {
            assert(s =~= seq!['.']);
        }
    }
    assert(crate::security::normal_pieces(Seq::<Seq<char>>::empty()) == Seq::<Seq<char>>::empty());
    assert(seq![p].last() == p);
    assert(crate::security::normal_pieces(seq![p]) =~= Seq::<Seq<char>>::empty().push(p));
    assert(split_in(p, seps)[0] == p);
    assert(path_components(p) =~= seq![p]);
    let dot = seq!['.'];
    assert(dot.contains('.')) by {
        assert(dot[0] == '.');
    }
    assert forall|j: int| k < j < p.len() implies !dot.contains(#[trigger] p[j]) by {
        assert(p[j] == e[j - k - 1]);
        if dot.contains(p[j]) {
            let t = choose|t: int| 0 <= t < dot.len() && dot[t] == p[j];
        }
    }
    crate::text::lemma_last_in_is(p, dot, k);
    assert(p.take(k) =~= s);
}

} // verus!
