//! How a library root is classified (local, network, synchronized), identified and
//! consented to.
use vstd::prelude::*;
use vstd::utf8::encode_utf8;
use crate::error::AppError;
use crate::model::{AppSettings, LibraryRootCandidate, LibraryStorageSummary, StorageLocationKind};
use crate::text::{
    chars_eq, chars_of, has_prefix, slice_vec, starts_with, string_of, trim_end_in, trim_end_len,
};
use crate::weburl::opt_view;

verus! {

/// The verbatim prefix of a UNC path, `\\?\UNC\`.
pub open spec fn verbatim_unc_prefix() -> Seq<char> {
    seq!['\\', '\\', '?', '\\', 'U', 'N', 'C', '\\']
}

/// The verbatim prefix, `\\?\`.
pub open spec fn verbatim_prefix() -> Seq<char> {
    seq!['\\', '\\', '?', '\\']
}

/// The UNC prefix, `\\`.
pub open spec fn unc_prefix() -> Seq<char> {
    seq!['\\', '\\']
}

/// A path as shown to the user: `\\?\UNC\server\share` becomes `\\server\share`, and the
/// `\\?\` of `\\?\C:\...` is dropped.
pub open spec fn display_path(p: Seq<char>) -> Seq<char> {
    if has_prefix(p, verbatim_unc_prefix()) {
        unc_prefix() + p.skip(8)
    } else if has_prefix(p, verbatim_prefix()) {
        p.skip(4)
    } else {
        p
    }
}

fn backslashes(n: usize) -> (r: Vec<char>)
    requires
        n <= 2,
    ensures
        r@ == Seq::new(n as nat, |i: int| '\\'),
{
    let mut r: Vec<char> = Vec::new();
    let mut i: usize = 0;
    while i < n
        invariant
            i <= n,
            r@ == Seq::new(i as nat, |j: int| '\\'),
        decreases n - i,
    {
        r.push('\\');
        assert(r@ =~= Seq::new(i as nat + 1, |j: int| '\\'));
        i += 1;
    }
    r
}

fn verbatim_unc_chars() -> (r: Vec<char>)
    ensures
        r@ == verbatim_unc_prefix(),
{
    let r = vec!['\\', '\\', '?', '\\', 'U', 'N', 'C', '\\'];
    assert(r@ =~= verbatim_unc_prefix());
    r
}

fn verbatim_chars() -> (r: Vec<char>)
    ensures
        r@ == verbatim_prefix(),
{
    let r = vec!['\\', '\\', '?', '\\'];
    assert(r@ =~= verbatim_prefix());
    r
}

/// The path as shown to the user, without Windows verbatim prefixes.
pub fn path_for_display(path: &str) -> (r: String)
    ensures
        r@ == display_path(path@),
{
    let p = chars_of(path);
    if starts_with(p.as_slice(), verbatim_unc_chars().as_slice()) {
        let mut out = backslashes(2);
        assert(out@ =~= unc_prefix());
        let rest = slice_vec(p.as_slice(), 8, p.len());
        let mut i: usize = 0;
        let ghost start = out@;
        while i < rest.len()
            invariant
                i <= rest@.len(),
                out@ == start + rest@.take(i as int),
            decreases rest.len() - i,
        {
            out.push(rest[i]);
            assert(rest@.take(i as int + 1) =~= rest@.take(i as int).push(rest@[i as int]));
            i += 1;
        }
        assert(rest@.take(rest@.len() as int) =~= rest@);
        assert(rest@ =~= p@.skip(8));
        string_of(out.as_slice())
    } else if starts_with(p.as_slice(), verbatim_chars().as_slice()) {
        let rest = slice_vec(p.as_slice(), 4, p.len());
        assert(rest@ =~= p@.skip(4));
        string_of(rest.as_slice())
    } else {
        string_of(p.as_slice())
    }
}

/// A UNC network path: `\\?\UNC\...`, or `\\...` that is not verbatim.
pub open spec fn unc_path(p: Seq<char>) -> bool {
    has_prefix(p, verbatim_unc_prefix()) || (has_prefix(p, unc_prefix()) && !has_prefix(
        p,
        verbatim_prefix(),
    ))
}

/// Whether `path` is a UNC network path.
pub fn is_unc_path(path: &str) -> (r: bool)
    ensures
        r == unc_path(path@),
{
    let p = chars_of(path);
    let two = backslashes(2);
    assert(two@ =~= unc_prefix());
    starts_with(p.as_slice(), verbatim_unc_chars().as_slice()) || (starts_with(
        p.as_slice(),
        two.as_slice(),
    ) && !starts_with(p.as_slice(), verbatim_chars().as_slice()))
}

/// The lower-case form of `s` that `str::to_lowercase` gives, by Unicode case mapping.
pub uninterp spec fn unicode_lowercase(s: Seq<char>) -> Seq<char>;

/// Calls `str::to_lowercase`. The Unicode case mapping is named rather than restated.
#[verifier::external_body]
fn lowercase(s: &str) -> (r: String)
    ensures
        r@ == unicode_lowercase(s@),
{
    s.to_lowercase()
}

/// `s` with every `/` written as `\`.
pub open spec fn with_backslashes(s: Seq<char>) -> Seq<char> {
    s.map_values(|c: char| if c == '/' { '\\' } else { c })
}

/// The form in which two paths are compared: shown without verbatim prefixes, with `\`
/// separators, without trailing separators, in lower case.
pub open spec fn path_identity(p: Seq<char>) -> Seq<char> {
    unicode_lowercase(trim_end_in(with_backslashes(display_path(p)), seq!['\\']))
}

/// The form of `path` in which paths are compared.
pub fn normalized_path_identity(path: &str) -> (r: String)
    ensures
        r@ == path_identity(path@),
{
    let shown = chars_of(path_for_display(path).as_str());
    let mut swapped: Vec<char> = Vec::new();
    let mut i: usize = 0;
    while i < shown.len()
        invariant
            i <= shown@.len(),
            swapped@ == with_backslashes(shown@.take(i as int)),
        decreases shown.len() - i,
    {
        let c = shown[i];
        swapped.push(if c == '/' { '\\' } else { c });
        assert(with_backslashes(shown@.take(i as int + 1)) =~= with_backslashes(
            shown@.take(i as int),
        ).push(if c == '/' { '\\' } else { c }));
        i += 1;
    }
    assert(shown@.take(shown@.len() as int) =~= shown@);
    let sep = vec!['\\'];
    assert(sep@ =~= seq!['\\']);
    let e = trim_end_len(swapped.as_slice(), sep.as_slice());
    let trimmed = string_of(slice_vec(swapped.as_slice(), 0, e).as_slice());
    assert(swapped@.subrange(0, e as int) =~= swapped@.take(e as int));
    lowercase(trimmed.as_str())
}

/// Two paths name the same root once normalized.
pub fn same_root(left: &str, right: &str) -> (r: bool)
    ensures
        r == (path_identity(left@) == path_identity(right@)),
{
    let a = normalized_path_identity(left);
    let b = normalized_path_identity(right);
    chars_eq(chars_of(a.as_str()).as_slice(), chars_of(b.as_str()).as_slice())
}

/// `path` is `root` or lies below it, once both are normalized.
pub open spec fn same_or_child(path: Seq<char>, root: Seq<char>) -> bool {
    let a = path_identity(path);
    let b = path_identity(root);
    a == b || (has_prefix(a, b) && a.len() > b.len() && (a[b.len() as int] == '\\' || a[b.len() as int]
        == '/'))
}

/// Whether `path` is `root` or lies below it.
pub fn path_is_same_or_child(path: &str, root: &str) -> (r: bool)
    ensures
        r == same_or_child(path@, root@),
{
    let a = chars_of(normalized_path_identity(path).as_str());
    let b = chars_of(normalized_path_identity(root).as_str());
    if chars_eq(a.as_slice(), b.as_slice()) {
        return true;
    }
    starts_with(a.as_slice(), b.as_slice()) && a.len() > b.len() && (a[b.len()] == '\\' || a[b.len()]
        == '/')
}

/// The SHA-256 digest of `data`, as `sha2::Sha256::digest` computes it.
pub uninterp spec fn sha256_digest(data: Seq<u8>) -> Seq<u8>;

/// Calls `sha2::Sha256::digest`; the digest is named rather than restated, and is 32 bytes
/// long.
#[verifier::external_body]
fn sha256(data: &[u8]) -> (r: Vec<u8>)
    ensures
        r@ == sha256_digest(data@),
        r@.len() == 32,
{
    <sha2::Sha256 as sha2::Digest>::digest(data).to_vec()
}

/// The lower-case hexadecimal digit for `n` below 16.
pub open spec fn hex_digit(n: int) -> char {
    if n < 10 {
        (48 + n) as char
    } else {
        (87 + n) as char
    }
}

/// Two lower-case hexadecimal digits per byte, most significant first.
pub open spec fn hex_text(bytes: Seq<u8>) -> Seq<char>
    decreases bytes.len(),
{
    if bytes.len() == 0 {
        Seq::empty()
    } else {
        hex_text(bytes.drop_last()) + seq![
            hex_digit(bytes.last() as int / 16),
            hex_digit(bytes.last() as int % 16),
        ]
    }
}

/// Calls `hex::encode`, which writes each byte as two lower-case hexadecimal digits.
#[verifier::external_body]
pub(crate) fn hex_encode(bytes: &[u8]) -> (r: String)
    ensures
        r@ == hex_text(bytes@),
{
    hex::encode(bytes)
}

/// The tag of a storage kind inside its fingerprint.
pub open spec fn kind_tag(kind: StorageLocationKind) -> Seq<char> {
    match kind {
        StorageLocationKind::Local => "local"@,
        StorageLocationKind::Network => "network"@,
        StorageLocationKind::Sync => "sync"@,
        StorageLocationKind::Unknown => "unknown"@,
    }
}

/// The fingerprint that binds a consent to one root and one storage kind: the hexadecimal
/// SHA-256 of the kind's tag, a zero byte, and the root's normalized identity.
pub open spec fn fingerprint_spec(path: Seq<char>, kind: StorageLocationKind) -> Seq<char> {
    hex_text(
        sha256_digest(
            encode_utf8(kind_tag(kind)) + seq![0u8] + encode_utf8(path_identity(path)),
        ),
    )
}

fn kind_tag_text(kind: StorageLocationKind) -> (r: &'static str)
    ensures
        r@ == kind_tag(kind),
{
    match kind {
        StorageLocationKind::Local => "local",
        StorageLocationKind::Network => "network",
        StorageLocationKind::Sync => "sync",
        StorageLocationKind::Unknown => "unknown",
    }
}

/// The fingerprint of a root of the given storage kind.
pub fn storage_fingerprint(path: &str, kind: StorageLocationKind) -> (r: String)
    ensures
        r@ == fingerprint_spec(path@, kind),
{
    let identity = normalized_path_identity(path);
    let tag = kind_tag_text(kind).as_bytes();
    let id_bytes = identity.as_str().as_bytes();
    let mut data: Vec<u8> = Vec::new();
    let mut i: usize = 0;
    while i < tag.len()
        invariant
            i <= tag@.len(),
            data@ == tag@.take(i as int),
        decreases tag.len() - i,
    {
        data.push(tag[i]);
        assert(tag@.take(i as int + 1) =~= tag@.take(i as int).push(tag@[i as int]));
        i += 1;
    }
    assert(tag@.take(tag@.len() as int) =~= tag@);
    data.push(0u8);
    let ghost head = data@;
    let mut j: usize = 0;
    while j < id_bytes.len()
        invariant
            j <= id_bytes@.len(),
            data@ == head + id_bytes@.take(j as int),
        decreases id_bytes.len() - j,
    {
        data.push(id_bytes[j]);
        assert(id_bytes@.take(j as int + 1) =~= id_bytes@.take(j as int).push(id_bytes@[j as int]));
        j += 1;
    }
    assert(id_bytes@.take(id_bytes@.len() as int) =~= id_bytes@);
    assert(tag@ == encode_utf8(kind_tag(kind)));
    assert(id_bytes@ == encode_utf8(path_identity(path@)));
    assert(data@ =~= encode_utf8(kind_tag(kind)) + seq![0u8] + encode_utf8(path_identity(path@)));
    let digest = sha256(data.as_slice());
    hex_encode(digest.as_slice())
}

/// A local root needs no consent; any other root only the consent recorded for its own
/// fingerprint.
pub open spec fn consent_matches(
    kind: StorageLocationKind,
    expected: Seq<char>,
    stored: Option<Seq<char>>,
) -> bool {
    kind == StorageLocationKind::Local || stored == Some(expected)
}

/// Whether the recorded consent covers a root of kind `kind` with fingerprint `expected`.
pub fn storage_consent_matches(
    kind: StorageLocationKind,
    expected_fingerprint: &str,
    stored_fingerprint: Option<&str>,
) -> (r: bool)
    ensures
        r == consent_matches(
            kind,
            expected_fingerprint@,
            match stored_fingerprint {
                Some(s) => Some(s@),
                None => None,
            },
        ),
{
    if kind == StorageLocationKind::Local {
        return true;
    }
    match stored_fingerprint {
        Some(s) => chars_eq(chars_of(s).as_slice(), chars_of(expected_fingerprint).as_slice()),
        None => false,
    }
}

/// What Windows reports of the drive that holds a path.
#[derive(Debug, Clone, Copy, PartialEq, Eq, Structural)]
pub enum DriveType {
    Fixed,
    Network,
    Other,
    Unknown,
}

/// The drive type for a `GetDriveTypeW` result: fixed (3), remote (4), removable, CD-ROM or
/// RAM disk (2, 5, 6), and unknown for anything else.
pub fn drive_type_from_code(code: u32) -> (r: DriveType)
    ensures
        code == 3 ==> r == DriveType::Fixed,
        code == 4 ==> r == DriveType::Network,
        (code == 2 || code == 5 || code == 6) ==> r == DriveType::Other,
        !(code == 2 || code == 3 || code == 4 || code == 5 || code == 6) ==> r == DriveType::Unknown,
{
    if code == 3 {
        DriveType::Fixed
    } else if code == 4 {
        DriveType::Network
    } else if code == 2 || code == 5 || code == 6 {
        DriveType::Other
    } else {
        DriveType::Unknown
    }
}

/// The root `X:\` of the drive a path is on, when its shown form starts with a drive letter,
/// a colon and something more.
pub open spec fn drive_root_spec(path: Seq<char>) -> Option<Seq<char>> {
    let d = display_path(path);
    if d.len() >= 3 && (('a' <= d[0] && d[0] <= 'z') || ('A' <= d[0] && d[0] <= 'Z')) && d[1] == ':' {
        Some(seq![d[0], ':', '\\'])
    } else {
        None
    }
}

/// The drive root whose type decides a path's storage kind.
pub fn drive_root(path: &str) -> (r: Option<String>)
    ensures
        opt_view(r) == drive_root_spec(path@),
{
    let d = chars_of(path_for_display(path).as_str());
    if d.len() >= 3 && (('a' <= d[0] && d[0] <= 'z') || ('A' <= d[0] && d[0] <= 'Z')) && d[1] == ':' {
        let root = vec![d[0], ':', '\\'];
        assert(root@ =~= seq![d@[0], ':', '\\']);
        Some(string_of(root.as_slice()))
    } else {
        None
    }
}

/// What the machine tells about a root: the type of its drive, whether it is a Cloud Files
/// sync root, and the roots of known synchronization providers.
pub struct StorageFacts {
    pub drive_type: DriveType,
    pub cloud_sync_root: bool,
    pub sync_roots: Vec<String>,
}

/// `path` is one of the synchronization roots or below one.
pub open spec fn under_sync_root(path: Seq<char>, roots: Seq<Seq<char>>) -> bool {
    exists|i: int| 0 <= i < roots.len() && same_or_child(path, #[trigger] roots[i])
}

/// The storage kind of a root and the reasons shown for it: a UNC path or a mapped network
/// drive is network storage; a sync root, or a folder under a known sync provider's root, is
/// synchronized; a fixed drive is local; anything else is unknown.
pub open spec fn classification(
    path: Seq<char>,
    drive_type: DriveType,
    cloud_sync_root: bool,
    sync_roots: Seq<Seq<char>>,
) -> (StorageLocationKind, Seq<Seq<char>>) {
    if unc_path(path) {
        (StorageLocationKind::Network, seq!["The selected folder is on a UNC network path."@])
    } else if drive_type == DriveType::Network {
        (StorageLocationKind::Network, seq!["The selected folder is on a mapped network drive."@])
    } else if cloud_sync_root || under_sync_root(path, sync_roots) {
        (
            StorageLocationKind::Sync,
            seq!["The selected folder is managed by a file synchronization provider."@],
        )
    } else if drive_type == DriveType::Fixed {
        (StorageLocationKind::Local, Seq::empty())
    } else {
        (
            StorageLocationKind::Unknown,
            seq!["The storage type could not be verified as a fixed local drive."@],
        )
    }
}

/// Only a fixed drive that is neither network nor synchronized storage is local. A Cloud
/// Files sync root, or a folder at or under a known provider's root, is never local, and off
/// the network it is synchronized storage; every kind but local carries one reason for the
/// user to confirm.
pub proof fn lemma_synchronized_roots_are_not_local(
    path: Seq<char>,
    drive_type: DriveType,
    cloud_sync_root: bool,
    sync_roots: Seq<Seq<char>>,
)
    ensures
        ({
            let (kind, reasons) = classification(path, drive_type, cloud_sync_root, sync_roots);
            let synced = cloud_sync_root || exists|i: int|
                0 <= i < sync_roots.len() && same_or_child(path, #[trigger] sync_roots[i]);
            &&& synced ==> kind != StorageLocationKind::Local
            &&& synced && !unc_path(path) && drive_type != DriveType::Network ==> kind
                == StorageLocationKind::Sync
            &&& unc_path(path) || drive_type == DriveType::Network ==> kind
                == StorageLocationKind::Network
            &&& kind == StorageLocationKind::Local <==> !synced && !unc_path(path) && drive_type
                == DriveType::Fixed
            &&& kind == StorageLocationKind::Local ==> reasons.len() == 0
            &&& kind != StorageLocationKind::Local ==> reasons.len() == 1
        }),
{
}

fn is_under_sync_root(path: &str, roots: &Vec<String>) -> (r: bool)
    ensures
        r == under_sync_root(path@, roots.deep_view()),
{
    let mut i: usize = 0;
    while i < roots.len()
        invariant
            i <= roots.len(),
            forall|j: int| 0 <= j < i ==> !same_or_child(path@, #[trigger] roots.deep_view()[j]),
        decreases roots.len() - i,
    {
        assert(roots.deep_view()[i as int] == roots@[i as int]@);
        if path_is_same_or_child(path, roots[i].as_str()) {
            return true;
        }
        i += 1;
    }
    false
}

fn one_reason(text: &str) -> (r: Vec<String>)
    ensures
        r.deep_view() == seq![text@],
{
    let mut r: Vec<String> = Vec::new();
    r.push(text.to_owned());
    assert(r.deep_view() =~= seq![text@]);
    r
}

/// Classifies a root from what the machine tells about it.
pub fn classify_library_root(path: &str, facts: &StorageFacts) -> (r: (
    StorageLocationKind,
    Vec<String>,
))
    ensures
        (r.0, r.1.deep_view()) == classification(
            path@,
            facts.drive_type,
            facts.cloud_sync_root,
            facts.sync_roots.deep_view(),
        ),
{
    if is_unc_path(path) {
        return (StorageLocationKind::Network, one_reason("The selected folder is on a UNC network path."));
    }
    if facts.drive_type == DriveType::Network {
        return (
            StorageLocationKind::Network,
            one_reason("The selected folder is on a mapped network drive."),
        );
    }
    if facts.cloud_sync_root || is_under_sync_root(path, &facts.sync_roots) {
        return (
            StorageLocationKind::Sync,
            one_reason("The selected folder is managed by a file synchronization provider."),
        );
    }
    if facts.drive_type == DriveType::Fixed {
        let none: Vec<String> = Vec::new();
        assert(none.deep_view() =~= Seq::<Seq<char>>::empty());
        (StorageLocationKind::Local, none)
    } else {
        (
            StorageLocationKind::Unknown,
            one_reason("The storage type could not be verified as a fixed local drive."),
        )
    }
}

/// A library root that exists, with its classification and fingerprint.
#[derive(Debug, Clone)]
pub struct ValidatedLibraryRoot {
    pub path: String,
    pub kind: StorageLocationKind,
    pub reasons: Vec<String>,
    pub fingerprint: String,
}

fn copy_strings(v: &Vec<String>) -> (r: Vec<String>)
    ensures
        r.deep_view() == v.deep_view(),
{
    let mut r: Vec<String> = Vec::new();
    let mut i: usize = 0;
    while i < v.len()
        invariant
            i <= v.len(),
            r.deep_view() == v.deep_view().take(i as int),
        decreases v.len() - i,
    {
        let ghost before = r.deep_view();
        r.push(v[i].clone());
        assert(r.deep_view() =~= before.push(v@[i as int]@));
        assert(v.deep_view().take(i as int + 1) =~= v.deep_view().take(i as int).push(
            v.deep_view()[i as int],
        ));
        i += 1;
    }
    assert(v.deep_view().take(v.len() as int) =~= v.deep_view());
    r
}

impl ValidatedLibraryRoot {
    /// The root as proposed to the user for confirmation: shown path, kind and reasons.
    pub fn candidate(&self) -> (r: LibraryRootCandidate)
        ensures
            r.path@ == display_path(self.path@),
            r.kind == self.kind,
            r.reasons.deep_view() == self.reasons.deep_view(),
    {
        LibraryRootCandidate {
            path: path_for_display(self.path.as_str()),
            kind: self.kind,
            reasons: copy_strings(&self.reasons),
        }
    }

    /// Any root that is not local storage must be confirmed by the user.
    pub fn requires_confirmation(&self) -> (r: bool)
        ensures
            r == (self.kind != StorageLocationKind::Local),
    {
        self.kind != StorageLocationKind::Local
    }
}

/// Classifies an existing root, given as its canonical path, and computes its fingerprint.
pub fn validated_library_root(canonical: String, facts: &StorageFacts) -> (r: ValidatedLibraryRoot)
    ensures
        r.path@ == canonical@,
        (r.kind, r.reasons.deep_view()) == classification(
            canonical@,
            facts.drive_type,
            facts.cloud_sync_root,
            facts.sync_roots.deep_view(),
        ),
        r.fingerprint@ == fingerprint_spec(canonical@, r.kind),
{
    let (kind, reasons) = classify_library_root(canonical.as_str(), facts);
    let fingerprint = storage_fingerprint(canonical.as_str(), kind);
    ValidatedLibraryRoot { path: canonical, kind, reasons, fingerprint }
}

/// The configured root may be used only when it is local or its recorded consent matches
/// its current fingerprint.
pub fn check_configured_consent(validated: &ValidatedLibraryRoot, settings: &AppSettings) -> (r:
    Result<(), AppError>)
    ensures
        r is Ok <==> consent_matches(
            validated.kind,
            validated.fingerprint@,
            opt_view(settings.library_root_opt_in_fingerprint),
        ),
        r matches Err(e) ==> e is NonLocalLibraryRootNotConfirmed,
{
    let stored = match &settings.library_root_opt_in_fingerprint {
        Some(s) => Some(s.as_str()),
        None => None,
    };
    if storage_consent_matches(validated.kind, validated.fingerprint.as_str(), stored) {
        Ok(())
    } else {
        Err(AppError::NonLocalLibraryRootNotConfirmed)
    }
}

/// The storage summary of the configured root: its kind, and whether a non-local root was
/// confirmed for its current fingerprint.
pub open spec fn storage_summary_spec(
    root: Seq<char>,
    consent: Option<Seq<char>>,
    facts_drive: DriveType,
    facts_cloud: bool,
    facts_roots: Seq<Seq<char>>,
) -> (StorageLocationKind, bool) {
    let kind = classification(root, facts_drive, facts_cloud, facts_roots).0;
    (kind, kind != StorageLocationKind::Local && consent == Some(fingerprint_spec(root, kind)))
}

/// Summarizes the storage of the configured root, when one is configured.
pub fn library_storage_summary(settings: &AppSettings, facts: &StorageFacts) -> (r: Option<
    LibraryStorageSummary,
>)
    ensures
        settings.library_root is None ==> r is None,
        settings.library_root matches Some(root) ==> (r matches Some(s) && (s.kind, s.non_local_confirmed)
            == storage_summary_spec(
            root@,
            opt_view(settings.library_root_opt_in_fingerprint),
            facts.drive_type,
            facts.cloud_sync_root,
            facts.sync_roots.deep_view(),
        )),
{
    let root = match &settings.library_root {
        Some(r) => r,
        None => {
            return None;
        },
    };
    let (kind, _) = classify_library_root(root.as_str(), facts);
    let fingerprint = storage_fingerprint(root.as_str(), kind);
    let confirmed = kind != StorageLocationKind::Local && match &settings.library_root_opt_in_fingerprint {
        Some(s) => chars_eq(chars_of(s.as_str()).as_slice(), chars_of(fingerprint.as_str()).as_slice()),
        None => false,
    };
    Some(LibraryStorageSummary { kind, non_local_confirmed: confirmed })
}

/// The names of the probe file written into a root to check that it is writable, before and
/// after it is renamed: `.stashly-storage-probe-{id}.tmp` and `.ready`.
pub fn probe_file_names(id: &str) -> (r: (String, String))
    ensures
        r.0@ == ".stashly-storage-probe-"@ + id@ + ".tmp"@,
        r.1@ == ".stashly-storage-probe-"@ + id@ + ".ready"@,
{
    let mut a = chars_of(".stashly-storage-probe-");
    let ghost start = a@;
    let idc = chars_of(id);
    let mut i: usize = 0;
    while i < idc.len()
        invariant
            i <= idc@.len(),
            a@ == start + idc@.take(i as int),
        decreases idc.len() - i,
    {
        a.push(idc[i]);
        assert(idc@.take(i as int + 1) =~= idc@.take(i as int).push(idc@[i as int]));
        i += 1;
    }
    assert(idc@.take(idc@.len() as int) =~= idc@);
    let base = string_of(a.as_slice());
    (crate::download::concat(base.as_str(), ".tmp"), crate::download::concat(base.as_str(), ".ready"))
}


/// Consent to non-local storage is fail-closed and bound to one fingerprint: a root that is
/// not local is accepted only with the consent recorded for exactly its fingerprint.
pub proof fn lemma_consent_is_fail_closed(
    kind: StorageLocationKind,
    expected: Seq<char>,
    stored: Option<Seq<char>>,
)
    requires
        kind != StorageLocationKind::Local,
    ensures
        consent_matches(kind, expected, stored) <==> stored == Some(expected),
{
}

/// A fingerprint depends on a path only through its normalized identity: paths that differ
/// in verbatim prefix, separators, trailing separators or case share it.
pub proof fn lemma_fingerprint_follows_identity(p: Seq<char>, q: Seq<char>, kind: StorageLocationKind)
    requires
        path_identity(p) == path_identity(q),
    ensures
        fingerprint_spec(p, kind) == fingerprint_spec(q, kind),
{
}

/// A path is always the same root as itself and lies at or below itself.
pub proof fn lemma_same_or_child_reflexive(p: Seq<char>)
    ensures
        same_or_child(p, p),
{
}


/// What `serde_json` reads at `document[outer][inner]` of the JSON text `text`, as a string:
/// `None` when the text is not JSON or the value there is missing or not a string.
pub uninterp spec fn json_nested_string(text: Seq<char>, outer: Seq<char>, inner: Seq<char>) -> Option<
    Seq<char>,
>;

/// Parses `text` with `serde_json::from_str` and reads `document[outer][inner]` with
/// `Value::get` and `Value::as_str`. JSON parsing is named rather than restated.
#[verifier::external_body]
fn nested_json_string(text: &str, outer: &str, inner: &str) -> (r: Option<String>)
    ensures
        opt_view(r) == json_nested_string(text@, outer@, inner@),
{
    let Ok(document) = serde_json::from_str::<serde_json::Value>(text) else {
        return None;
    };
    match document.get(outer) {
        Some(account) => match account.get(inner) {
            Some(value) => value.as_str().map(str::to_owned),
            None => None,
        },
        None => None,
    }
}

/// The synchronized folders one Dropbox `info.json` names: its personal and its business
/// account paths, in that order, when present.
pub open spec fn dropbox_config_roots(text: Seq<char>) -> Seq<Seq<char>> {
    let personal = json_nested_string(text, "personal"@, "path"@);
    let business = json_nested_string(text, "business"@, "path"@);
    (match personal {
        Some(p) => seq![p],
        None => Seq::empty(),
    }) + (match business {
        Some(b) => seq![b],
        None => Seq::empty(),
    })
}

/// The synchronized folders all the given Dropbox configurations name, in order.
pub open spec fn dropbox_roots_spec(configs: Seq<Seq<char>>) -> Seq<Seq<char>>
    decreases configs.len(),
{
    if configs.len() == 0 {
        Seq::empty()
    } else {
        dropbox_roots_spec(configs.drop_last()) + dropbox_config_roots(configs.last())
    }
}

/// Reads the Dropbox roots from the text of each `info.json` found.
pub fn dropbox_roots_from(configs: &Vec<String>) -> (r: Vec<String>)
    ensures
        r.deep_view() == dropbox_roots_spec(configs.deep_view()),
{
    let mut roots: Vec<String> = Vec::new();
    let mut i: usize = 0;
    assert(configs.deep_view().take(0) =~= Seq::<Seq<char>>::empty());
    while i < configs.len()
        invariant
            i <= configs.len(),
            roots.deep_view() == dropbox_roots_spec(configs.deep_view().take(i as int)),
        decreases configs.len() - i,
    {
        let text = configs[i].as_str();
        let ghost before = roots.deep_view();
        let personal = nested_json_string(text, "personal", "path");
        let business = nested_json_string(text, "business", "path");
        match personal {
            Some(p) => {
                roots.push(p);
            },
            None => {},
        }
        let ghost middle = roots.deep_view();
        match business {
            Some(b) => {
                roots.push(b);
            },
            None => {},
        }
        assert(configs.deep_view()[i as int] == configs@[i as int]@);
        assert(configs.deep_view().take(i as int + 1).drop_last() =~= configs.deep_view().take(i as int));
        assert(roots.deep_view() =~= before + dropbox_config_roots(configs@[i as int]@));
        i += 1;
    }
    assert(configs.deep_view().take(configs.len() as int) =~= configs.deep_view());
    roots
}

} // verus!
