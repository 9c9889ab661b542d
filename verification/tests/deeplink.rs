use stashly::deeplink::parse;
use stashly::weburl::WebUrl;

fn signed_url() -> &'static str {
    "https%3A%2F%2Fs6.booth.pm%2Fdownloads%2Fsample%2520file.zip%3FX-Amz-Signature%3Dredacted"
}

#[test]
fn parses_single_download_without_retaining_order_id() {
    let url = WebUrl::parse(&format!(
        "booth-library-manager://download?item_id=123&variation_id=456&order_id=789&dlurl={}",
        signed_url()
    ))
    .unwrap();
    let parsed = parse(&url).unwrap();
    assert_eq!(parsed.len(), 1);
    assert_eq!(parsed[0].item_id, 123);
    assert_eq!(parsed[0].filename, "sample file.zip");
}

#[test]
fn rejects_unknown_fields_and_unapproved_hosts() {
    let unknown = WebUrl::parse(&format!(
        "booth-library-manager://download?item_id=1&variation_id=2&extra=3&dlurl={}",
        signed_url()
    ))
    .unwrap();
    assert!(parse(&unknown).is_err());

    let other_host = WebUrl::parse(
        "booth-library-manager://download?item_id=1&variation_id=2&dlurl=https%3A%2F%2Fexample.com%2Fa.zip",
    )
    .unwrap();
    assert!(parse(&other_host).is_err());
}

#[test]
fn rejects_single_and_array_forms_together() {
    let url = WebUrl::parse(&format!(
        "booth-library-manager://download?item_id=1&variation_id=2&dlurl={0}&dlurls%5B%5D={0}",
        signed_url()
    ))
    .unwrap();
    assert!(parse(&url).is_err());
}

#[test]
fn keeps_the_signed_address_of_each_download() {
    let url = WebUrl::parse(&format!(
        "booth-library-manager://download?item_id=9&variation_id=8&dlurl={}",
        signed_url()
    ))
    .unwrap();
    let parsed = parse(&url).unwrap();
    assert_eq!(parsed[0].variation_id, 8);
    assert_eq!(parsed[0].request_id.len(), 36);
    assert_eq!(parsed[0].request_id.matches('-').count(), 4);
    assert_eq!(
        parsed[0].signed_url.as_deref(),
        Some("https://s6.booth.pm/downloads/sample%20file.zip?X-Amz-Signature=redacted")
    );
}

#[test]
fn unknown_and_repeated_fields_are_invalid_payloads() {
    for query in [
        "item_id=1&variation_id=2&extra=3&dlurl=",
        "item_id=1&item_id=1&variation_id=2&dlurl=",
        "item_id=1&variation_id=2&client=a&client=b&dlurl=",
    ] {
        let url = WebUrl::parse(&format!("booth-library-manager://download?{}{}", query, signed_url())).unwrap();
        assert!(matches!(parse(&url), Err(stashly::error::AppError::InvalidPayload(_))));
    }
}
