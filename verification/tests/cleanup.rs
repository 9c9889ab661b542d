use stashly::cleanup::{check_removable, should_prune, DeleteLibraryResult};
use stashly::error::AppError;

#[test]
fn only_paths_strictly_inside_the_root_are_removed() {
    assert!(check_removable("/library", "/library/Shop/Example/package").is_ok());
    assert!(matches!(check_removable("/library", "/library"), Err(AppError::PathOutsideLibrary)));
    assert!(matches!(check_removable("/library", "/outside.txt"), Err(AppError::PathOutsideLibrary)));
}

#[test]
fn pruning_stops_at_the_root() {
    assert!(should_prune("/library/Shop/Example", "/library"));
    assert!(!should_prune("/library", "/library"));
    assert!(!should_prune("/elsewhere", "/library"));
}

#[test]
fn cleanup_results_count_artifacts_and_paths() {
    let mut result = DeleteLibraryResult::new();
    result.record_artifact(true);
    result.record_artifact(false);
    result.record_staging(true);
    assert_eq!(result.removed_artifacts, 2);
    assert_eq!(result.removed_paths, 2);
}
