//! The rules for deleting downloaded files: only indexed paths strictly inside the library
//! root are removed, and empty folders are pruned up to the root.
use vstd::prelude::*;
use crate::error::AppError;
use crate::security::{ensure_within_root, path_starts_with};
use crate::text::{chars_eq, chars_of};

verus! {

/// How much a cleanup removed.
#[derive(Debug, Clone, Copy)]
pub struct DeleteLibraryResult {
    pub removed_artifacts: usize,
    pub removed_paths: usize,
}

/// A path may be removed only when it lies below the library root and is not the root
/// itself; `resolved` is its canonical form.
pub open spec fn removable(root: Seq<char>, resolved: Seq<char>) -> bool {
    path_starts_with(resolved, root) && resolved != root
}

/// Checks that an indexed path, once resolved, may be removed.
pub fn check_removable(root: &str, resolved: &str) -> (r: Result<(), AppError>)
    ensures
        r is Ok <==> removable(root@, resolved@),
        r matches Err(e) ==> e is PathOutsideLibrary,
{
    match ensure_within_root(root, resolved) {
        Ok(()) => {},
        Err(e) => {
            return Err(e);
        },
    }
    if chars_eq(chars_of(resolved).as_slice(), chars_of(root).as_slice()) {
        return Err(AppError::PathOutsideLibrary);
    }
    Ok(())
}

/// Empty parents are pruned while they are below the root and not the root itself.
pub fn should_prune(current: &str, root: &str) -> (r: bool)
    ensures
        r == (current@ != root@ && path_starts_with(current@, root@)),
{
    !chars_eq(chars_of(current).as_slice(), chars_of(root).as_slice()) && ensure_within_root(
        root,
        current,
    ).is_ok()
}

impl DeleteLibraryResult {
    /// Nothing removed yet.
    pub fn new() -> (r: DeleteLibraryResult)
        ensures
            r.removed_artifacts == 0,
            r.removed_paths == 0,
    {
        DeleteLibraryResult { removed_artifacts: 0, removed_paths: 0 }
    }

    /// Counts an artifact removed from the index, and its folder when one was deleted.
    pub fn record_artifact(&mut self, removed_path: bool)
        requires
            old(self).removed_artifacts < usize::MAX,
            old(self).removed_paths < usize::MAX,
        ensures
            final(self).removed_artifacts == old(self).removed_artifacts + 1,
            final(self).removed_paths == old(self).removed_paths + if removed_path {
                1usize
            } else {
                0usize
            },
    {
        self.removed_artifacts = self.removed_artifacts + 1;
        if removed_path {
            self.removed_paths = self.removed_paths + 1;
        }
    }

    /// Counts the staging folder when it was deleted.
    pub fn record_staging(&mut self, removed: bool)
        requires
            old(self).removed_paths < usize::MAX,
        ensures
            final(self).removed_artifacts == old(self).removed_artifacts,
            final(self).removed_paths == old(self).removed_paths + if removed {
                1usize
            } else {
                0usize
            },
    {
        if removed {
            self.removed_paths = self.removed_paths + 1;
        }
    }
}

/// The library root itself is never removed, whatever the index says.
pub proof fn lemma_root_is_never_removed(root: Seq<char>)
    ensures
        !removable(root, root),
{
}

} // verus!
