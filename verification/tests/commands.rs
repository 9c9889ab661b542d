use stashly::commands::{configured_root, library_snapshot, opt_in_fingerprint, root_change_check, RootChangeStep};
use stashly::error::AppError;
use stashly::model::{AppSettings, StorageLocationKind};
use stashly::storage::{path_for_display, validated_library_root, DriveType, StorageFacts};

fn facts() -> StorageFacts {
    StorageFacts { drive_type: DriveType::Fixed, cloud_sync_root: false, sync_roots: Vec::new() }
}

#[test]
fn removes_the_windows_verbatim_prefix_for_display() {
    assert_eq!(path_for_display(r"\\?\F:\BOOTH_files"), r"F:\BOOTH_files");
    assert_eq!(path_for_display(r"\\?\UNC\server\share\BOOTH"), r"\\server\share\BOOTH");
    assert_eq!(path_for_display(r"F:\BOOTH_files"), r"F:\BOOTH_files");
}

#[test]
fn a_root_is_required() {
    let none = AppSettings { library_root: None, library_root_opt_in_fingerprint: None };
    assert!(matches!(configured_root(&none), Err(AppError::MissingLibraryRoot)));
    let some = AppSettings { library_root: Some(r"C:\Booth".into()), library_root_opt_in_fingerprint: None };
    assert_eq!(configured_root(&some).unwrap(), r"C:\Booth");
}

#[test]
fn changing_the_root_keeps_registered_files_and_asks_for_non_local_storage() {
    let network = validated_library_root(r"\\nas\share\Booth".into(), &facts());
    assert!(matches!(
        root_change_check(Some(r"C:\Old"), &network, true, false),
        Err(AppError::LibraryRootContainsArtifacts)
    ));
    match root_change_check(Some(r"\\NAS\share\booth\"), &network, true, false) {
        Ok(RootChangeStep::Confirm(candidate)) => {
            assert_eq!(candidate.path, r"\\nas\share\Booth");
            assert_eq!(candidate.kind, StorageLocationKind::Network);
        }
        _ => panic!("a confirmation was expected"),
    }
    assert!(matches!(root_change_check(None, &network, false, true), Ok(RootChangeStep::Proceed)));
    assert_eq!(opt_in_fingerprint(&network), Some(network.fingerprint.clone()));
    let local = validated_library_root(r"C:\Booth".into(), &facts());
    assert!(matches!(root_change_check(None, &local, false, false), Ok(RootChangeStep::Proceed)));
    assert_eq!(opt_in_fingerprint(&local), None);
}

#[test]
fn snapshots_show_the_root_without_verbatim_prefix() {
    let settings = AppSettings {
        library_root: Some(r"\\?\D:\Booth".into()),
        library_root_opt_in_fingerprint: None,
    };
    let snapshot = library_snapshot(Vec::new(), &settings, &facts());
    assert_eq!(snapshot.library_root.as_deref(), Some(r"D:\Booth"));
    let storage = snapshot.library_storage.expect("storage summary");
    assert_eq!(storage.kind, StorageLocationKind::Local);
    assert!(!storage.non_local_confirmed);
}
