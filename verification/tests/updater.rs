use stashly::download::ExclusiveOperationError;
use stashly::updater::{downloaded_after, map_exclusive_operation_error, release_notes, AvailableUpdate, UpdateCommandError, MAX_RELEASE_NOTES_CHARS};

#[test]
fn release_notes_are_trimmed_and_bounded_as_plain_text() {
    assert_eq!(release_notes(Some("  Changes  ")), Some("Changes".into()));
    assert_eq!(release_notes(Some(" \n ")), None);

    let oversized = "あ".repeat(MAX_RELEASE_NOTES_CHARS + 1);
    let notes = release_notes(Some(&oversized)).unwrap();
    assert_eq!(notes.chars().count(), MAX_RELEASE_NOTES_CHARS + 2);
    assert!(notes.ends_with("\n…"));
}

#[test]
fn notes_at_the_limit_are_kept_whole() {
    let exact = "x".repeat(MAX_RELEASE_NOTES_CHARS);
    assert_eq!(release_notes(Some(&exact)), Some(exact.clone()));
    assert_eq!(release_notes(None), None);
}

#[test]
fn exclusive_operation_errors_map_to_update_errors() {
    assert_eq!(
        map_exclusive_operation_error(ExclusiveOperationError::DownloadsInProgress),
        UpdateCommandError::DownloadsInProgress
    );
    assert_eq!(
        map_exclusive_operation_error(ExclusiveOperationError::OperationInProgress),
        UpdateCommandError::OperationInProgress
    );
    assert!(UpdateCommandError::InstallFailed.message().starts_with("更新をダウンロード"));
}

#[test]
fn available_updates_carry_their_notes() {
    let update = AvailableUpdate::new("0.1.0".into(), "0.2.0".into(), Some("  Fixes \n"));
    assert_eq!(update.version, "0.2.0");
    assert_eq!(update.notes.as_deref(), Some("Fixes"));
    assert_eq!(downloaded_after(10, 5), 15);
    assert_eq!(downloaded_after(u64::MAX - 1, 5), u64::MAX);
}
