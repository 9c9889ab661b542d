use stashly::error::AppError;
use stashly::model::{DownloadState, DownloadStatusEvent};
use stashly::weburl::WebUrl;
use stashly::webview::{
    browser_url_for_display, download_intent_from_url, native_download_request,
    native_download_url_matches, navigation_decision, new_window_navigation_target, open_folder_request_id,
    ActiveDownloadNotifications, BrowserLocations, CompletedDownloadActions, NativeDownloadIntent,
    NativeDownloads, NavigationDecision, COMPLETED_ACTION_LIFETIME_MS,
    COMPLETED_NOTIFICATION_REPLAY_LIFETIME_MS, DOWNLOAD_INTENT_LIFETIME_MS,
};

const REQUEST_ID: &str = "7cf15df3-9714-4ff5-bf56-ab976127be9d";

fn url(text: &str) -> WebUrl {
    WebUrl::parse(text).unwrap()
}

fn intent(variation_id: i64, created_at: u64) -> NativeDownloadIntent {
    NativeDownloadIntent {
        request_id: REQUEST_ID.into(),
        item_id: 123,
        variation_id,
        downloadable_id: 789,
        created_at,
    }
}

#[test]
fn download_intent_accepts_only_exact_positive_fields() {
    let valid = url(&format!(
        "booth-shelf://download-intent?request_id={REQUEST_ID}&item_id=123&variation_id=456&downloadable_id=789"
    ));
    let intent = download_intent_from_url(&valid, 0).unwrap();
    assert_eq!(intent.request_id, REQUEST_ID);
    assert_eq!(intent.item_id, 123);
    assert_eq!(intent.variation_id, 456);
    assert_eq!(intent.downloadable_id, 789);

    for invalid in [
        "booth-shelf://download-intent?request_id=bad&item_id=1&variation_id=2&downloadable_id=3",
        "booth-shelf://download-intent?request_id=7cf15df3-9714-4ff5-bf56-ab976127be9d&item_id=0&variation_id=2&downloadable_id=3",
        "booth-shelf://download-intent?request_id=7cf15df3-9714-4ff5-bf56-ab976127be9d&item_id=1&variation_id=2&downloadable_id=3&extra=4",
        "booth-shelf://download-intent/path?request_id=7cf15df3-9714-4ff5-bf56-ab976127be9d&item_id=1&variation_id=2&downloadable_id=3",
        "https://accounts.booth.pm/library?request_id=7cf15df3-9714-4ff5-bf56-ab976127be9d&item_id=1&variation_id=2&downloadable_id=3",
    ] {
        assert!(download_intent_from_url(&url(invalid), 0).is_none());
    }
}

#[test]
fn download_intent_is_one_shot_and_expires() {
    let mut downloads: NativeDownloads<()> = NativeDownloads::new();
    let now = 1_000_000;

    assert!(downloads.arm(intent(456, now), now));
    assert_eq!(downloads.take_intent(now).unwrap().item_id, 123);
    assert!(downloads.take_intent(now).is_none());

    assert!(downloads.arm(intent(456, now), now));
    assert!(downloads.take_intent(now + DOWNLOAD_INTENT_LIFETIME_MS + 1_000).is_none());
}

#[test]
fn native_download_url_is_bound_to_the_armed_download() {
    let armed = intent(456, 0);
    assert!(native_download_url_matches(&url("https://booth.pm/downloadables/789?variation_id=456"), &armed));
    assert!(native_download_url_matches(&url("https://s6.booth.pm/signed-response"), &armed));

    let queryless = intent(789, 0);
    assert!(native_download_url_matches(&url("https://booth.pm/downloadables/789"), &queryless));
    for rejected in [
        "https://booth.pm/downloadables/789",
        "https://booth.pm/downloadables/790?variation_id=456",
        "https://booth.pm/downloadables/789?variation_id=457",
        "https://s6.booth.pm.example.test/signed-response",
        "http://s6.booth.pm/signed-response",
    ] {
        assert!(!native_download_url_matches(&url(rejected), &armed));
    }
}

#[test]
fn browser_locations_restore_booth_and_library_destinations_independently() {
    let mut locations = BrowserLocations::new();
    let library = url("https://accounts.booth.pm/library");
    let page_two = url("https://accounts.booth.pm/library/free_downloads?page=2");
    let product = url("https://booth.pm/ja/items/123");
    let booth_top = url("https://booth.pm/ja");

    locations.remember(&page_two);
    locations.remember(&product);

    assert_eq!(locations.destination(Some(&product), &library).text, page_two.text);
    assert_eq!(locations.destination(Some(&page_two), &booth_top).text, product.text);
}

#[test]
fn browser_locations_keep_the_current_destination_and_honor_explicit_urls() {
    let mut locations = BrowserLocations::new();
    let library = url("https://accounts.booth.pm/library");
    let page_two = url("https://accounts.booth.pm/library?page=2");
    let product = url("https://booth.pm/ja/items/123");
    let other_product = url("https://booth.pm/ja/items/456");
    let booth_top = url("https://booth.pm/ja");

    locations.remember(&page_two);
    locations.remember(&product);

    assert_eq!(locations.destination(Some(&page_two), &library).text, page_two.text);
    assert_eq!(locations.destination(Some(&product), &booth_top).text, product.text);
    assert_eq!(locations.destination(Some(&page_two), &other_product).text, other_product.text);
}

#[test]
fn browser_locations_ignore_authentication_and_unrelated_pages() {
    let mut locations = BrowserLocations::new();
    let library = url("https://accounts.booth.pm/library");
    let booth_top = url("https://booth.pm/ja");
    locations.remember(&url("https://accounts.pixiv.net/login"));
    locations.remember(&url("https://accounts.booth.pm/settings"));

    assert_eq!(locations.destination(None, &library).text, library.text);
    assert_eq!(locations.destination(None, &booth_top).text, booth_top.text);
}

#[test]
fn browser_location_display_omits_sensitive_query_and_fragment() {
    let login = url("https://accounts.pixiv.net/login?code=secret&state=opaque#callback");
    assert_eq!(browser_url_for_display(&login).as_deref(), Some("https://accounts.pixiv.net/login"));
}

#[test]
fn browser_location_display_keeps_only_a_numeric_library_page() {
    let library = url("https://accounts.booth.pm/library?page=12&token=secret#downloads");
    assert_eq!(
        browser_url_for_display(&library).as_deref(),
        Some("https://accounts.booth.pm/library?page=12")
    );
}

#[test]
fn new_window_navigation_reuses_the_browser_only_for_allowed_urls() {
    for allowed in [
        "https://accounts.booth.pm/dashboard",
        "https://accounts.booth.pm/library/free_downloads?page=1",
        "https://sample-shop.booth.pm/items/123",
        "https://accounts.pixiv.net/login",
    ] {
        let target = new_window_navigation_target(url(allowed)).expect("allowed");
        assert_eq!(target.text, url(allowed).text);
    }

    for rejected in [
        "http://accounts.booth.pm/dashboard",
        "https://booth.pm.example.test/items/123",
        "https://example.test/",
        "about:blank",
    ] {
        assert!(new_window_navigation_target(url(rejected)).is_none());
    }
}

#[test]
fn active_download_notifications_retain_completed_state_for_page_replay() {
    let mut notifications = ActiveDownloadNotifications::new();
    let now = 1_000_000;
    let mut event = DownloadStatusEvent {
        request_id: REQUEST_ID.into(),
        item_id: Some(3_848_152),
        filename: Some("private-file.zip".into()),
        state: DownloadState::Downloading,
        message: "Queued".into(),
    };

    notifications.update_at(&event, now);
    assert_eq!(notifications.snapshot_at(now), vec![(REQUEST_ID.to_owned(), DownloadState::Downloading)]);

    event.state = DownloadState::Downloading;
    notifications.update_at(&event, now);
    assert_eq!(notifications.snapshot_at(now), vec![(REQUEST_ID.to_owned(), DownloadState::Downloading)]);

    event.state = DownloadState::Completed;
    notifications.update_at(&event, now);
    assert_eq!(notifications.snapshot_at(now), vec![(REQUEST_ID.to_owned(), DownloadState::Completed)]);
    assert!(notifications.snapshot_at(now + COMPLETED_NOTIFICATION_REPLAY_LIFETIME_MS).is_empty());

    event.request_id = "027584e5-c497-44f2-830b-4172bed74a23".into();
    event.state = DownloadState::Downloading;
    notifications.update_at(&event, now);
    event.state = DownloadState::Failed;
    notifications.update_at(&event, now);
    assert!(notifications.snapshot_at(now).is_empty());
}

#[test]
fn active_download_notifications_ignore_non_uuid_request_ids() {
    let mut notifications = ActiveDownloadNotifications::new();
    notifications.update(&DownloadStatusEvent {
        request_id: "not-a-uuid".into(),
        item_id: None,
        filename: None,
        state: DownloadState::Downloading,
        message: "Downloading".into(),
    });

    assert!(notifications.snapshot().is_empty());
}

#[test]
fn folder_notification_action_accepts_only_one_uuid_request_id() {
    let valid = url(&format!("booth-shelf://open-product-folder?request_id={REQUEST_ID}"));
    assert_eq!(open_folder_request_id(&valid).as_deref(), Some(REQUEST_ID));

    for invalid in [
        "booth-shelf://open-product-folder?request_id=not-a-uuid",
        "booth-shelf://open-product-folder?request_id=7cf15df3-9714-4ff5-bf56-ab976127be9d&extra=true",
        "booth-shelf://open-product-folder/path?request_id=7cf15df3-9714-4ff5-bf56-ab976127be9d",
        "booth-shelf://other?request_id=7cf15df3-9714-4ff5-bf56-ab976127be9d",
        "https://accounts.booth.pm/library?request_id=7cf15df3-9714-4ff5-bf56-ab976127be9d",
    ] {
        assert_eq!(open_folder_request_id(&url(invalid)), None);
    }
}

#[test]
fn folder_actions_canonicalize_the_request_id() {
    let upper = url("booth-shelf://open-product-folder?request_id=7CF15DF3-9714-4FF5-BF56-AB976127BE9D");
    assert_eq!(open_folder_request_id(&upper).as_deref(), Some(REQUEST_ID));
}

#[test]
fn completed_action_is_one_time_and_expires() {
    let mut actions = CompletedDownloadActions::new();
    let now = 1_000_000;
    actions.remember(REQUEST_ID, 3_848_152, now);

    assert_eq!(actions.take(REQUEST_ID, now), Some(3_848_152));
    assert_eq!(actions.take(REQUEST_ID, now), None);

    actions.remember(REQUEST_ID, 3_848_152, now);
    assert_eq!(actions.take(REQUEST_ID, now + COMPLETED_ACTION_LIFETIME_MS + 1_000), None);
}

#[test]
fn navigations_are_decided_by_scheme_and_allowlist() {
    let folder = url(&format!("booth-shelf://open-product-folder?request_id={REQUEST_ID}"));
    assert!(matches!(navigation_decision(&folder, 0), NavigationDecision::OpenFolder(id) if id == REQUEST_ID));
    let intent_link = url(&format!(
        "booth-shelf://download-intent?request_id={REQUEST_ID}&item_id=1&variation_id=2&downloadable_id=3"
    ));
    match navigation_decision(&intent_link, 5) {
        NavigationDecision::DownloadIntent { request_id, intent } => {
            assert_eq!(request_id.as_deref(), Some(REQUEST_ID));
            assert_eq!(intent.expect("valid intent").created_at, 5);
        }
        _ => panic!("a download intent was expected"),
    }
    assert!(matches!(navigation_decision(&url("booth-shelf://other"), 0), NavigationDecision::IgnoreLocalAction));
    assert!(matches!(navigation_decision(&url("https://booth.pm/ja"), 0), NavigationDecision::Allow));
    assert!(matches!(navigation_decision(&url("https://example.com/"), 0), NavigationDecision::Deny));
}

#[test]
fn native_requests_need_the_intent_address_and_a_safe_name() {
    let armed = intent(456, 0);
    let source = url("https://booth.pm/downloadables/789?variation_id=456");
    let request = native_download_request(&armed, &source, Some("package.zip")).unwrap();
    assert_eq!(request.request_id, REQUEST_ID);
    assert_eq!(request.downloadable_id, Some(789));
    assert_eq!(request.filename, "package.zip");
    assert!(matches!(
        native_download_request(&armed, &url("https://example.com/a"), Some("a.zip")),
        Err(AppError::RejectedDownloadUrl)
    ));
    assert!(matches!(native_download_request(&armed, &source, None), Err(AppError::UnsafeFilename)));
    assert!(matches!(native_download_request(&armed, &source, Some("..")), Err(AppError::UnsafeFilename)));
}
