use stashly::metadata::{
    classify_metadata_response, contains_ascii_case_insensitive, follow_metadata_redirect,
    follow_up_fetch, is_html_content_type, is_public_product_url, parse_product_metadata,
    parse_retry_after_seconds, product_from_open_graph, rate_limit_pause_until, read_html_head_step,
    seconds_until, FetchOutcome, HeadRead, MetadataFollowUp, MetadataResponse,
    DEFAULT_RATE_LIMIT_PAUSE_SECONDS, MAX_HTML_BYTES,
};
use stashly::weburl::WebUrl;

fn url(text: &str) -> WebUrl {
    WebUrl::parse(text).unwrap()
}

#[test]
fn metadata_reads_public_product_open_graph_metadata() {
    let html = r#"<html><head>
      <meta property="og:title" content="Star Accessory - Moon Shop - BOOTH">
      <meta property="og:image" content="https://booth.pximg.net/example.png">
    </head></html>"#;
    let product = parse_product_metadata(html, 123, "https://booth.pm/ja/items/123".into()).unwrap();
    assert_eq!(product.name, "Star Accessory");
    assert_eq!(product.shop_name, "Moon Shop");
    assert_eq!(product.thumbnail_url.as_deref(), Some("https://booth.pximg.net/example.png"));
}

#[test]
fn accepts_only_public_booth_product_urls() {
    assert!(is_public_product_url(&url("https://booth.pm/ja/items/123")));
    assert!(is_public_product_url(&url("https://booth.pm/items/123")));
    assert!(!is_public_product_url(&url("https://accounts.booth.pm/ja/items/123")));
    assert!(!is_public_product_url(&url("https://booth.pm/ja/items/not-a-number")));
    assert!(!is_public_product_url(&url("https://booth.pm/ja/library")));
    assert!(!is_public_product_url(&url("https://booth.pm/arbitrary/items/123")));
    assert!(!is_public_product_url(&url("https://booth.pm/ja/items/123?tracking=value")));
}

#[test]
fn rejects_untrusted_open_graph_images() {
    let html = r#"<html><head>
      <meta property="og:title" content="Example - Shop - BOOTH">
      <meta property="og:image" content="https://example.com/tracker.png">
    </head></html>"#;
    let product = parse_product_metadata(html, 123, "https://booth.pm/ja/items/123".into()).unwrap();
    assert_eq!(product.thumbnail_url, None);
}

#[test]
fn parses_retry_after_seconds_and_http_dates() {
    assert_eq!(parse_retry_after_seconds("120", 1_000), Some(120));
    let retry_at = chrono::DateTime::parse_from_rfc2822("Wed, 21 Oct 2015 07:28:00 GMT")
        .unwrap()
        .timestamp();
    assert_eq!(parse_retry_after_seconds("Wed, 21 Oct 2015 07:28:00 GMT", retry_at - 60), Some(60));
    assert_eq!(parse_retry_after_seconds("invalid", 1_000), None);
}

#[test]
fn retry_after_is_trimmed_never_negative_and_passed_dates_wait_nothing() {
    assert_eq!(parse_retry_after_seconds("  30 ", 0), Some(30));
    assert_eq!(parse_retry_after_seconds("-5", 0), None);
    assert_eq!(parse_retry_after_seconds("Wed, 21 Oct 2015 07:28:00 GMT", 2_000_000_000), Some(0));
    assert_eq!(seconds_until(i64::MAX, i64::MIN), i64::MAX);
    assert_eq!(seconds_until(5, 10), 0);
}

#[test]
fn rate_limits_pause_at_least_a_day() {
    assert_eq!(rate_limit_pause_until(None, 1_000), 1_000 + DEFAULT_RATE_LIMIT_PAUSE_SECONDS);
    assert_eq!(rate_limit_pause_until(Some("60"), 1_000), 1_000 + DEFAULT_RATE_LIMIT_PAUSE_SECONDS);
    assert_eq!(rate_limit_pause_until(Some("200000"), 1_000), 201_000);
    assert_eq!(rate_limit_pause_until(Some("200000"), i64::MAX - 1), i64::MAX);
}

#[test]
fn titles_split_at_the_last_separator() {
    let product = product_from_open_graph("  A - B - C | BOOTH ", None, 7, "u".into()).unwrap();
    assert_eq!(product.name, "A - B");
    assert_eq!(product.shop_name, "C");
    let plain = product_from_open_graph("Single", Some("  https://img.booth.pximg.net/a.png "), 7, "u".into()).unwrap();
    assert_eq!(plain.name, "Single");
    assert_eq!(plain.shop_name, "BOOTH");
    assert_eq!(plain.thumbnail_url.as_deref(), Some("https://img.booth.pximg.net/a.png"));
    assert!(product_from_open_graph("   ", None, 7, "u".into()).is_none());
    let insecure = product_from_open_graph("X", Some("http://booth.pximg.net/a.png"), 7, "u".into()).unwrap();
    assert_eq!(insecure.thumbnail_url, None);
}

#[test]
fn pages_without_a_title_give_nothing() {
    assert!(parse_product_metadata("<html><head></head></html>", 1, "u".into()).is_none());
}

#[test]
fn head_reading_stops_at_the_closing_tag_or_the_limit() {
    let mut body = Vec::new();
    assert!(matches!(read_html_head_step(&mut body, b"<html><HEAD>"), HeadRead::NeedMore));
    assert!(matches!(read_html_head_step(&mut body, b"</HeAd><body>"), HeadRead::Complete));
    assert_eq!(body, b"<html><HEAD></HeAd><body>".to_vec());
    let mut full = vec![0u8; MAX_HTML_BYTES];
    assert!(matches!(read_html_head_step(&mut full, b"x"), HeadRead::TooLarge));
    assert_eq!(full.len(), MAX_HTML_BYTES);
    assert!(contains_ascii_case_insensitive(b"abc</HEAD>", b"</head>"));
    assert!(!contains_ascii_case_insensitive(b"</hea", b"</head>"));
}

#[test]
fn responses_are_classified() {
    let page = url("https://booth.pm/ja/items/123");
    assert!(matches!(
        classify_metadata_response(200, &page, Some("Text/HTML; charset=utf-8"), None, 0),
        MetadataResponse::ReadBody
    ));
    assert!(matches!(
        classify_metadata_response(200, &page, Some("application/json"), None, 0),
        MetadataResponse::Unavailable
    ));
    assert!(matches!(
        classify_metadata_response(404, &page, Some("text/html"), None, 0),
        MetadataResponse::Unavailable
    ));
    assert!(matches!(
        classify_metadata_response(200, &url("https://booth.pm/ja/library"), Some("text/html"), None, 0),
        MetadataResponse::Unavailable
    ));
    assert!(matches!(
        classify_metadata_response(429, &page, None, Some("10"), 5),
        MetadataResponse::RateLimited { pause_until } if pause_until == 5 + DEFAULT_RATE_LIMIT_PAUSE_SECONDS
    ));
    assert!(is_html_content_type(Some("text/html")));
    assert!(!is_html_content_type(None));
}

#[test]
fn redirects_follow_only_product_pages() {
    assert!(follow_metadata_redirect(0, &url("https://booth.pm/en/items/5")));
    assert!(!follow_metadata_redirect(3, &url("https://booth.pm/en/items/5")));
    assert!(!follow_metadata_redirect(0, &url("https://booth.pm/fr/items/5")));
}

#[test]
fn fetch_outcomes_are_followed_up() {
    assert!(matches!(
        follow_up_fetch(FetchOutcome::RateLimited { pause_until: 9 }, None),
        MetadataFollowUp::Pause { until: 9, fallback: None }
    ));
    assert!(matches!(follow_up_fetch(FetchOutcome::Unavailable, None), MetadataFollowUp::Fallback(None)));
}
