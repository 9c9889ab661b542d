//! The decisions behind the commands the local interface invokes: changing the library
//! root and describing the library.
use vstd::prelude::*;
use crate::error::AppError;
use crate::model::{AppSettings, LibraryRootCandidate, LibrarySnapshot, ProductSummary};
use crate::storage::{
    display_path, library_storage_summary, path_for_display, path_identity, same_root,
    storage_summary_spec, StorageFacts, ValidatedLibraryRoot,
};
use crate::weburl::opt_view;
use crate::model::StorageLocationKind;

verus! {

/// The configured library root, which most operations need.
pub fn configured_root(settings: &AppSettings) -> (r: Result<String, AppError>)
    ensures
        match r {
            Ok(root) => settings.library_root matches Some(s) && s@ == root@,
            Err(e) => settings.library_root is None && e is MissingLibraryRoot,
        },
{
    match &settings.library_root {
        Some(root) => Ok(root.clone()),
        None => Err(AppError::MissingLibraryRoot),
    }
}

/// What a request to change the library root leads to, before anything is saved.
pub enum RootChangeStep {
    /// The root is not local storage and the user has not allowed it yet: ask.
    Confirm(LibraryRootCandidate),
    /// The change may go ahead.
    Proceed,
}

/// The new root is the configured one (compared as normalized paths).
pub open spec fn same_as_current(current: Option<Seq<char>>, path: Seq<char>) -> bool {
    current matches Some(c) && path_identity(c) == path_identity(path)
}

/// Decides a change of the library root to `inspected`: moving to another root is refused
/// while downloaded files are registered; a root that is not local needs the user's
/// permission.
pub fn root_change_check(
    current_root: Option<&str>,
    inspected: &ValidatedLibraryRoot,
    has_artifacts: bool,
    allow_non_local: bool,
) -> (r: Result<RootChangeStep, AppError>)
    ensures
        !same_as_current(
            match current_root {
                Some(c) => Some(c@),
                None => None,
            },
            inspected.path@,
        ) && has_artifacts ==> (r matches Err(e) && e is LibraryRootContainsArtifacts),
        (same_as_current(
            match current_root {
                Some(c) => Some(c@),
                None => None,
            },
            inspected.path@,
        ) || !has_artifacts) && inspected.kind != StorageLocationKind::Local && !allow_non_local ==> (
        r matches Ok(RootChangeStep::Confirm(c)) && c.path@ == display_path(inspected.path@) && c.kind
            == inspected.kind && c.reasons.deep_view() == inspected.reasons.deep_view()),
        (same_as_current(
            match current_root {
                Some(c) => Some(c@),
                None => None,
            },
            inspected.path@,
        ) || !has_artifacts) && !(inspected.kind != StorageLocationKind::Local && !allow_non_local)
            ==> (r matches Ok(RootChangeStep::Proceed)),
{
    let same = match current_root {
        Some(c) => same_root(c, inspected.path.as_str()),
        None => false,
    };
    if !same && has_artifacts {
        return Err(AppError::LibraryRootContainsArtifacts);
    }
    if inspected.requires_confirmation() && !allow_non_local {
        return Ok(RootChangeStep::Confirm(inspected.candidate()));
    }
    Ok(RootChangeStep::Proceed)
}

/// The consent recorded with a new root: its fingerprint when it is not local storage.
pub fn opt_in_fingerprint(validated: &ValidatedLibraryRoot) -> (r: Option<String>)
    ensures
        validated.kind == StorageLocationKind::Local ==> r is None,
        validated.kind != StorageLocationKind::Local ==> opt_view(r) == Some(validated.fingerprint@),
{
    if validated.requires_confirmation() {
        Some(validated.fingerprint.clone())
    } else {
        None
    }
}

/// The library as the interface shows it: the products, the configured root without
/// verbatim prefixes, and the storage summary of that root.
pub fn library_snapshot(
    products: Vec<ProductSummary>,
    settings: &AppSettings,
    facts: &StorageFacts,
) -> (r: LibrarySnapshot)
    ensures
        r.products@ == products@,
        opt_view(r.library_root) == match settings.library_root {
            Some(root) => Some(display_path(root@)),
            None => None,
        },
        settings.library_root is None ==> r.library_storage is None,
        settings.library_root matches Some(root) ==> (r.library_storage matches Some(s) && (
        s.kind,
        s.non_local_confirmed,
        ) == storage_summary_spec(
            root@,
            opt_view(settings.library_root_opt_in_fingerprint),
            facts.drive_type,
            facts.cloud_sync_root,
            facts.sync_roots.deep_view(),
        )),
{
    let library_root = match &settings.library_root {
        Some(root) => Some(path_for_display(root.as_str())),
        None => None,
    };
    LibrarySnapshot {
        products,
        library_root,
        library_storage: library_storage_summary(settings, facts),
    }
}

} // verus!
