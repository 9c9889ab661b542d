use stashly::download::{
    archive_stem, busy_event, check_archive, check_content_length, completed_event, enrich_request,
    filename_from_content_disposition, follow_download_redirect, is_redundant_single_root, is_zip_filename,
    plan_zip_entry, plan_zip_entry_with, record_download_chunk, sanitize_archive_path, sanitize_archive_path_with,
    staging_chunk, staging_file_name, EnqueueError, StagingDigest,
    EntryPlan, ExclusiveOperationError, ExtractedEntry, ExtractionProgress, ProcessOutcome, QueueState,
    ZipEntryInfo, MAX_DOWNLOAD_BYTES, MAX_EXPANDED_BYTES,
};
use stashly::error::AppError;
use stashly::metadata::parse_product_metadata;
use stashly::model::{DownloadRequest, DownloadState, UpsertProductInput};
use stashly::weburl::WebUrl;

fn request() -> DownloadRequest {
    DownloadRequest {
        request_id: "request-1".into(),
        item_id: 123,
        variation_id: 456,
        downloadable_id: None,
        product_name: None,
        shop_name: None,
        filename: "package.zip".into(),
        signed_url: Some("https://s6.booth.pm/example".into()),
    }
}

fn archive_message(error: AppError) -> String {
    match error {
        AppError::Archive(message) => message,
        _ => panic!("an archive error was expected"),
    }
}

#[test]
fn download_reads_public_product_open_graph_metadata() {
    let html = r#"<html><head>
      <meta property="og:title" content="Star Accessory - Moon Shop - BOOTH">
      <meta property="og:image" content="https://booth.pximg.net/example.png">
    </head></html>"#;
    let product = parse_product_metadata(html, 123, "https://booth.pm/ja/items/123".into()).unwrap();
    assert_eq!(product.name, "Star Accessory");
    assert_eq!(product.shop_name, "Moon Shop");
    assert_eq!(product.thumbnail_url.as_deref(), Some("https://booth.pximg.net/example.png"));
}

#[test]
fn accepts_only_safe_content_disposition_filenames() {
    assert_eq!(
        filename_from_content_disposition("attachment; filename*=UTF-8''sample%20package.unitypackage")
            .as_deref(),
        Some("sample package.unitypackage")
    );
    assert!(filename_from_content_disposition("attachment; filename=../secret.txt").is_none());
}

#[test]
fn content_disposition_prefers_the_encoded_name_and_unquotes_the_plain_one() {
    assert_eq!(
        filename_from_content_disposition(r#"attachment; filename="plain.zip"; filename*=UTF-8''%E3%81%82.zip"#)
            .as_deref(),
        Some("あ.zip")
    );
    assert_eq!(
        filename_from_content_disposition(r#"attachment; filename="quoted name.zip""#).as_deref(),
        Some("quoted name.zip")
    );
    assert_eq!(filename_from_content_disposition("attachment; filename*=UTF-8''%FF.zip; filename=ok.zip"), None);
    assert_eq!(filename_from_content_disposition("inline"), None);
}

#[test]
fn rejects_archive_traversal_paths() {
    assert!(sanitize_archive_path("../outside.txt").is_err());
    assert!(sanitize_archive_path("safe/file.txt").is_ok());
}

#[test]
fn archive_paths_are_sanitized_component_by_component() {
    assert_eq!(sanitize_archive_path("Avatar/read:me.txt").unwrap(), "Avatar/read_me.txt");
    assert_eq!(sanitize_archive_path("a//b/./c").unwrap(), "a/b/c");
    assert_eq!(archive_message(sanitize_archive_path("/etc/passwd").unwrap_err()), "the archive contains an unsafe path");
    assert_eq!(archive_message(sanitize_archive_path("C:evil").unwrap_err()), "the archive contains an unsafe path");
    assert_eq!(archive_message(sanitize_archive_path("").unwrap_err()), "the archive contains an empty path");
}

#[test]
fn detects_zip_extension_case_insensitively() {
    assert!(is_zip_filename("package.ZIP"));
    assert!(!is_zip_filename("package.unitypackage"));
}

#[test]
fn zip_detection_and_stems_follow_the_file_name() {
    assert!(!is_zip_filename(".zip"));
    assert!(is_zip_filename("dir/archive.tar.zip"));
    assert!(!is_zip_filename("zip"));
    assert_eq!(archive_stem("Cybanin3000.zip"), "Cybanin3000");
    assert_eq!(archive_stem("CON.zip"), "_CON");
    assert_eq!(archive_stem(".zip"), ".zip");
    assert_eq!(archive_stem(""), "archive");
}

#[test]
fn cleanup_and_download_admission_are_mutually_exclusive() {
    let mut queue = QueueState::new();

    queue.begin_cleanup().unwrap();
    assert_eq!(queue.admission(), Err(EnqueueError::CleanupActive));
    queue.end_cleanup();

    queue.admission().unwrap();
    queue.record_admitted();
    assert!(matches!(queue.begin_cleanup(), Err(AppError::DownloadsInProgress)));
    queue.finish_pending();
    assert!(queue.begin_cleanup().is_ok());
}

#[test]
fn exclusive_operations_and_reservations_respect_each_other() {
    let mut queue = QueueState::new();
    assert_eq!(queue.try_reserve(), Ok(()));
    assert_eq!(queue.begin_exclusive_operation(), Err(ExclusiveOperationError::DownloadsInProgress));
    queue.finish_browser_download();
    assert_eq!(queue.begin_exclusive_operation(), Ok(()));
    assert_eq!(queue.begin_exclusive_operation(), Err(ExclusiveOperationError::OperationInProgress));
    assert!(matches!(queue.begin_cleanup(), Err(AppError::LibraryCleanupInProgress)));
    assert_eq!(queue.try_reserve(), Err(EnqueueError::CleanupActive));
}

#[test]
fn size_limits_are_enforced() {
    assert!(check_content_length(Some(MAX_DOWNLOAD_BYTES)).is_ok());
    assert!(matches!(check_content_length(Some(MAX_DOWNLOAD_BYTES + 1)), Err(AppError::DownloadTooLarge)));
    assert_eq!(record_download_chunk(10, 5).unwrap(), 15);
    assert!(matches!(record_download_chunk(MAX_DOWNLOAD_BYTES, 1), Err(AppError::DownloadTooLarge)));
    assert!(check_archive(20_000, Some(u128::from(MAX_EXPANDED_BYTES))).is_ok());
    assert_eq!(archive_message(check_archive(20_001, None).unwrap_err()), "the archive contains more than 20000 entries");
    assert_eq!(
        archive_message(check_archive(1, Some(u128::from(MAX_EXPANDED_BYTES) + 1)).unwrap_err()),
        "the expanded archive exceeds the size limit"
    );
}

#[test]
fn archive_entries_are_planned_or_refused() {
    let file = ZipEntryInfo {
        encrypted: false,
        symlink: false,
        enclosed_name: Some("Avatar/readme.txt".into()),
        is_dir: false,
        is_file: true,
        size: 5,
    };
    assert!(matches!(plan_zip_entry(&file), Ok(EntryPlan::File(p)) if p == "Avatar/readme.txt"));
    let dir = ZipEntryInfo { enclosed_name: Some("Avatar/".into()), is_dir: true, is_file: false, ..file };
    assert!(matches!(plan_zip_entry(&dir), Ok(EntryPlan::Directory(p)) if p == "Avatar"));
    let link = ZipEntryInfo { symlink: true, enclosed_name: Some("a".into()), is_dir: false, is_file: false, ..dir };
    assert_eq!(archive_message(plan_zip_entry(&link).err().unwrap()), "symbolic links are not allowed in ZIP archives");
    let locked = ZipEntryInfo { encrypted: true, symlink: false, enclosed_name: None, is_dir: false, is_file: true, size: 1 };
    assert_eq!(archive_message(plan_zip_entry(&locked).err().unwrap()), "password-protected ZIP archives are not supported");
    let outside = ZipEntryInfo { encrypted: false, ..locked };
    assert_eq!(archive_message(plan_zip_entry(&outside).err().unwrap()), "an archive entry points outside the destination");
    let huge = ZipEntryInfo { enclosed_name: Some("big.bin".into()), size: MAX_DOWNLOAD_BYTES + 1, ..outside };
    assert_eq!(archive_message(plan_zip_entry(&huge).err().unwrap()), "an extracted file exceeds the size limit");
}

#[test]
fn extraction_progress_counts_bytes_and_files() {
    let mut progress = ExtractionProgress::new();
    assert_eq!(archive_message(progress.finish().unwrap_err()), "the archive did not contain files");
    progress.record_read(65_536).unwrap();
    progress.record_file();
    assert_eq!(progress.total_written, 65_536);
    assert_eq!(progress.finish().unwrap(), 1);
    let mut full = ExtractionProgress { total_written: MAX_EXPANDED_BYTES, extracted_files: 3 };
    assert_eq!(archive_message(full.record_read(1).unwrap_err()), "the expanded archive exceeds the size limit");
    let mut wrapped = ExtractionProgress { total_written: u64::MAX, extracted_files: 0 };
    assert_eq!(archive_message(wrapped.record_read(1).unwrap_err()), "expanded size overflow");
}

#[test]
fn a_single_directory_named_like_the_archive_is_redundant() {
    let entry = |name: &str, is_dir: bool| Some(ExtractedEntry { name: Some(name.into()), is_dir: Some(is_dir) });
    assert!(is_redundant_single_root(&vec![entry("cybanin3000", true)], "Cybanin3000"));
    assert!(!is_redundant_single_root(&vec![entry("Cybanin3000", false)], "Cybanin3000"));
    assert!(!is_redundant_single_root(&vec![entry("Other", true)], "Cybanin3000"));
    assert!(!is_redundant_single_root(&vec![entry("Cybanin3000", true), None], "Cybanin3000"));
    assert!(!is_redundant_single_root(&vec![], "Cybanin3000"));
}

#[test]
fn requests_are_enriched_by_the_response_and_metadata() {
    let product = UpsertProductInput {
        item_id: 123,
        name: "Star".into(),
        shop_name: "Moon".into(),
        shop_subdomain: None,
        product_url: "https://booth.pm/ja/items/123".into(),
        thumbnail_url: None,
    };
    let enriched = enrich_request(&request(), Some("named.zip".into()), Some(&product));
    assert_eq!(enriched.filename, "named.zip");
    assert_eq!(enriched.product_name.as_deref(), Some("Star"));
    assert_eq!(enriched.shop_name.as_deref(), Some("Moon"));
    assert_eq!(enriched.request_id, "request-1");
    let kept = enrich_request(&request(), None, None);
    assert_eq!(kept.filename, "package.zip");
    assert_eq!(kept.product_name, None);
    assert_eq!(staging_file_name("abc"), "abc.part");
}

#[test]
fn download_events_carry_the_request_and_message() {
    let event = completed_event(&request(), &ProcessOutcome::AlreadyDownloaded("/lib/package".into()));
    assert_eq!(event.state, DownloadState::Completed);
    assert_eq!(event.message, "Already downloaded at /lib/package");
    assert_eq!(event.item_id, Some(123));
    let saved = completed_event(&request(), &ProcessOutcome::Downloaded("/lib/x".into()));
    assert_eq!(saved.message, "Saved to /lib/x");
    let busy = busy_event(&request());
    assert_eq!(busy.state, DownloadState::Failed);
    assert!(busy.message.starts_with("Two downloads are already active."));
    assert_eq!(busy.item_id, Some(123));
    assert_eq!(busy.filename.as_deref(), Some("package.zip"));
    assert_eq!(saved.filename.as_deref(), Some("package.zip"));
}

#[test]
fn download_redirects_stay_on_booth() {
    let signed = WebUrl::parse("https://s6.booth.pm/file.zip").unwrap();
    assert!(follow_download_redirect(0, &signed));
    assert!(!follow_download_redirect(5, &signed));
    assert!(!follow_download_redirect(0, &WebUrl::parse("https://example.com/file.zip").unwrap()));
}

#[test]
fn archive_paths_join_with_the_given_separator() {
    assert_eq!(sanitize_archive_path_with("Avatar/read:me.txt", '\\').unwrap(), "Avatar\\read_me.txt");
    assert_eq!(sanitize_archive_path_with("a\\b//c", '/').unwrap(), "a/b/c");
    let file = ZipEntryInfo {
        encrypted: false,
        symlink: false,
        enclosed_name: Some("Avatar/readme.txt".into()),
        is_dir: false,
        is_file: true,
        size: 5,
    };
    assert!(matches!(plan_zip_entry_with(&file, '\\'), Ok(EntryPlan::File(p)) if p == "Avatar\\readme.txt"));
}

#[test]
fn pending_downloads_are_counted() {
    let mut queue = QueueState::new();
    assert_eq!(queue.pending_downloads(), 0);
    queue.record_admitted();
    assert_eq!(queue.try_reserve(), Ok(()));
    assert_eq!(queue.pending_downloads(), 2);
    queue.finish_pending();
    assert_eq!(queue.pending_downloads(), 1);
    queue.finish_browser_download();
    assert_eq!(queue.pending_downloads(), 0);
}

#[test]
fn at_most_two_browser_downloads_are_active() {
    let mut queue = QueueState::new();
    assert_eq!(queue.try_reserve(), Ok(()));
    assert_eq!(queue.try_reserve(), Ok(()));
    assert_eq!(queue.try_reserve(), Err(EnqueueError::Unavailable));
    assert_eq!(queue.pending_downloads(), 2);
    queue.record_admitted();
    assert_eq!(queue.try_reserve(), Err(EnqueueError::Unavailable));
    queue.finish_browser_download();
    assert_eq!(queue.try_reserve(), Ok(()));
    assert_eq!(queue.pending_downloads(), 3);
}

#[test]
fn staged_bytes_are_hashed_in_order() {
    let mut digest = StagingDigest::new();
    assert_eq!(staging_chunk(&mut digest, 0, b"a").unwrap(), 1);
    assert_eq!(staging_chunk(&mut digest, 1, b"bc").unwrap(), 3);
    assert_eq!(digest.finish_hex(), "ba7816bf8f01cfea414140de5dae2223b00361a396177a9cb410ff61f20015ad");
    let empty = StagingDigest::new();
    assert_eq!(empty.finish_hex(), "e3b0c44298fc1c149afbf4c8996fb92427ae41e4649b934ca495991b7852b855");
}

#[test]
fn a_refused_chunk_is_not_hashed() {
    let mut digest = StagingDigest::new();
    assert_eq!(staging_chunk(&mut digest, 0, b"abc").unwrap(), 3);
    assert!(matches!(staging_chunk(&mut digest, MAX_DOWNLOAD_BYTES, b"x"), Err(AppError::DownloadTooLarge)));
    assert_eq!(digest.finish_hex(), "ba7816bf8f01cfea414140de5dae2223b00361a396177a9cb410ff61f20015ad");
}

#[test]
fn fresh_identifiers_are_canonical_uuids() {
    let a = stashly::weburl::fresh_identifier();
    let b = stashly::weburl::fresh_identifier();
    assert_eq!(a.len(), 36);
    assert_eq!(a, a.to_lowercase());
    assert_ne!(a, b);
}
