use stashly::model::{AppSettings, StorageLocationKind};
use stashly::storage::{
    classify_library_root, drive_root, dropbox_roots_from, drive_type_from_code, is_unc_path, library_storage_summary,
    normalized_path_identity, path_for_display, path_is_same_or_child, probe_file_names, same_root,
    storage_consent_matches, storage_fingerprint, validated_library_root, DriveType, StorageFacts,
};

fn local_facts() -> StorageFacts {
    StorageFacts { drive_type: DriveType::Fixed, cloud_sync_root: false, sync_roots: Vec::new() }
}

#[test]
fn identifies_normal_and_verbatim_unc_paths() {
    assert!(is_unc_path(r"\\server\share\library"));
    assert!(is_unc_path(r"\\?\UNC\server\share\library"));
    assert!(!is_unc_path(r"C:\library"));
}

#[test]
fn fingerprints_are_bound_to_path_and_kind() {
    let path = r"C:\library";
    assert_eq!(
        storage_fingerprint(path, StorageLocationKind::Network),
        storage_fingerprint(r"c:/LIBRARY/", StorageLocationKind::Network)
    );
    assert_ne!(
        storage_fingerprint(path, StorageLocationKind::Network),
        storage_fingerprint(path, StorageLocationKind::Sync)
    );
    assert_ne!(
        storage_fingerprint(path, StorageLocationKind::Network),
        storage_fingerprint(r"C:\other", StorageLocationKind::Network)
    );
}

#[test]
fn fingerprint_is_the_hex_sha256_of_kind_and_identity() {
    assert_eq!(
        storage_fingerprint(r"C:\library", StorageLocationKind::Network),
        "cba44ebae5fec5aeaad6a4398731d4edb0070c4e4640835f8f470bb472c58344"
    );
    assert_eq!(
        storage_fingerprint(r"\\?\C:\Library\", StorageLocationKind::Local),
        "6475d43bb72868cf988cb062bd89e3d0a1ece7909695fbb5aeb4798e258b0705"
    );
}

#[test]
fn non_local_consent_is_fail_closed_and_bound_to_one_fingerprint() {
    assert!(storage_consent_matches(StorageLocationKind::Local, "local-fingerprint", None));
    assert!(!storage_consent_matches(StorageLocationKind::Network, "expected", None));
    assert!(!storage_consent_matches(StorageLocationKind::Sync, "expected", Some("another-root")));
    assert!(storage_consent_matches(StorageLocationKind::Unknown, "expected", Some("expected")));
}

#[test]
fn legacy_non_local_settings_are_reported_as_unconfirmed() {
    let root = r"\\server\share\library";
    let mut settings = AppSettings {
        library_root: Some(root.to_owned()),
        library_root_opt_in_fingerprint: None,
    };
    let summary = library_storage_summary(&settings, &local_facts()).expect("storage summary");
    assert_eq!(summary.kind, StorageLocationKind::Network);
    assert!(!summary.non_local_confirmed);

    settings.library_root_opt_in_fingerprint =
        Some(storage_fingerprint(root, StorageLocationKind::Network));
    assert!(
        library_storage_summary(&settings, &local_facts())
            .expect("confirmed storage summary")
            .non_local_confirmed
    );
}

#[test]
fn display_paths_hide_windows_verbatim_prefixes() {
    assert_eq!(path_for_display(r"\\?\UNC\server\share\BOOTH"), r"\\server\share\BOOTH");
    assert_eq!(path_for_display(r"\\?\F:\BOOTH"), r"F:\BOOTH");
}

#[test]
fn path_identity_ignores_prefix_separators_and_case() {
    assert_eq!(normalized_path_identity(r"\\?\D:\Booth\Library\"), r"d:\booth\library");
    assert_eq!(normalized_path_identity("E:/Ünïcode/"), r"e:\ünïcode");
    assert!(same_root(r"D:\Library", "d:/library/"));
    assert!(!same_root(r"D:\Library", r"D:\Library2"));
}

#[test]
fn same_or_child_requires_a_separator_after_the_root() {
    assert!(path_is_same_or_child(r"C:\Users\me\OneDrive\Booth", r"C:\Users\me\OneDrive"));
    assert!(path_is_same_or_child(r"C:\Users\me\OneDrive", r"c:\users\me\onedrive\"));
    assert!(!path_is_same_or_child(r"C:\Users\me\OneDriveBackup", r"C:\Users\me\OneDrive"));
}

#[test]
fn classification_follows_network_sync_and_drive_facts() {
    let (kind, reasons) = classify_library_root(r"\\server\share", &local_facts());
    assert_eq!(kind, StorageLocationKind::Network);
    assert_eq!(reasons, vec!["The selected folder is on a UNC network path.".to_owned()]);

    let mapped = StorageFacts { drive_type: DriveType::Network, cloud_sync_root: false, sync_roots: vec![] };
    let (kind, reasons) = classify_library_root(r"Z:\Booth", &mapped);
    assert_eq!(kind, StorageLocationKind::Network);
    assert_eq!(reasons, vec!["The selected folder is on a mapped network drive.".to_owned()]);

    let synced = StorageFacts {
        drive_type: DriveType::Fixed,
        cloud_sync_root: false,
        sync_roots: vec![r"C:\Users\me\Dropbox".to_owned()],
    };
    let (kind, _) = classify_library_root(r"C:\Users\me\Dropbox\Booth", &synced);
    assert_eq!(kind, StorageLocationKind::Sync);
    let (kind, reasons) = classify_library_root(r"C:\Booth", &synced);
    assert_eq!(kind, StorageLocationKind::Local);
    assert!(reasons.is_empty());

    let removable = StorageFacts { drive_type: DriveType::Other, cloud_sync_root: false, sync_roots: vec![] };
    let (kind, reasons) = classify_library_root(r"E:\Booth", &removable);
    assert_eq!(kind, StorageLocationKind::Unknown);
    assert_eq!(reasons, vec!["The storage type could not be verified as a fixed local drive.".to_owned()]);
}

#[test]
fn drive_roots_and_codes() {
    assert_eq!(drive_root(r"\\?\C:\Booth").as_deref(), Some(r"C:\"));
    assert_eq!(drive_root("C:"), None);
    assert_eq!(drive_root(r"\\server\share"), None);
    assert_eq!(drive_type_from_code(3), DriveType::Fixed);
    assert_eq!(drive_type_from_code(4), DriveType::Network);
    assert_eq!(drive_type_from_code(5), DriveType::Other);
    assert_eq!(drive_type_from_code(1), DriveType::Unknown);
}

#[test]
fn validated_roots_need_confirmation_unless_local() {
    let validated = validated_library_root(r"\\?\UNC\nas\share\Booth".to_owned(), &local_facts());
    assert!(validated.requires_confirmation());
    let candidate = validated.candidate();
    assert_eq!(candidate.path, r"\\nas\share\Booth");
    assert_eq!(candidate.kind, StorageLocationKind::Network);
    assert_eq!(
        validated.fingerprint,
        storage_fingerprint(r"\\nas\share\Booth", StorageLocationKind::Network)
    );
    let local = validated_library_root(r"C:\Booth".to_owned(), &local_facts());
    assert!(!local.requires_confirmation());
}

#[test]
fn probe_names_carry_the_identifier() {
    let (tmp, ready) = probe_file_names("abc");
    assert_eq!(tmp, ".stashly-storage-probe-abc.tmp");
    assert_eq!(ready, ".stashly-storage-probe-abc.ready");
}

#[test]
fn dropbox_configurations_name_personal_then_business_roots() {
    let configs = vec![
        r#"{"business": {"path": "D:\\Work Dropbox"}, "personal": {"path": "C:\\Users\\me\\Dropbox"}}"#.to_owned(),
        "not json".to_owned(),
        r#"{"personal": {"path": 5}, "business": {"path": "E:\\Team"}}"#.to_owned(),
    ];
    assert_eq!(
        dropbox_roots_from(&configs),
        vec![r"C:\Users\me\Dropbox".to_owned(), r"D:\Work Dropbox".to_owned(), r"E:\Team".to_owned()]
    );
}
