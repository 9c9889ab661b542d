//! Product metadata from public BOOTH product pages, and the rules around fetching it.
use vstd::prelude::*;
use crate::model::{ProductInputView, UpsertProductInput};
use crate::text::{
    all_digits, chars_eq, chars_of, has_prefix, has_suffix, is_all_digits, occurs_at, slice_vec,
    split_by, split_in, starts_with, ascii_lower, to_ascii_lower, trim, trim_ws, parse_i64,
    signed_decimal, ends_with, find_last, string_of,
};
use crate::weburl::{url_parse_result, UrlView, WebUrl};

verus! {

/// How long a successful fetch keeps an item from being fetched again automatically.
pub const SUCCESS_CACHE_SECONDS: i64 = 30 * 24 * 60 * 60;

/// How long a failed fetch keeps an item from being retried automatically.
pub const FAILED_RETRY_SECONDS: i64 = 24 * 60 * 60;

/// The least time between two metadata requests to BOOTH.
pub const MINIMUM_REQUEST_INTERVAL_SECONDS: i64 = 10;

/// The shortest pause after BOOTH answers that too many requests were made.
pub const DEFAULT_RATE_LIMIT_PAUSE_SECONDS: i64 = 24 * 60 * 60;

/// The most bytes of a product page that are read while looking for its `<head>`.
pub const MAX_HTML_BYTES: usize = 1024 * 1024;

/// The most redirects followed while fetching a product page.
pub const MAX_METADATA_REDIRECTS: usize = 3;

/// The locales under which BOOTH serves product pages.
pub open spec fn product_locale(s: Seq<char>) -> bool {
    s == "ja"@ || s == "en"@ || s == "ko"@ || s == "zh-cn"@ || s == "zh-tw"@
}

/// The path segments of a hierarchical URL path, as `Url::path_segments` yields them.
pub open spec fn path_segments_of(path: Seq<char>) -> Option<Seq<Seq<char>>> {
    if path.len() > 0 && path[0] == '/' {
        Some(split_in(path.drop_first(), seq!['/']))
    } else {
        None
    }
}

/// The item segment of `/items/{item}` or `/{locale}/items/{item}`.
pub open spec fn product_item_segment(segments: Seq<Seq<char>>) -> Option<Seq<char>> {
    if segments.len() == 2 && segments[0] == "items"@ {
        Some(segments[1])
    } else if segments.len() == 3 && product_locale(segments[0]) && segments[1] == "items"@ {
        Some(segments[2])
    } else {
        None
    }
}

/// A public BOOTH product page: `https://booth.pm/[locale/]items/{digits}` with no
/// credentials, port, query or fragment.
pub open spec fn public_product_url(u: UrlView) -> bool {
    &&& u.scheme == "https"@
    &&& u.host == Some("booth.pm"@)
    &&& u.username.len() == 0
    &&& u.password is None
    &&& u.port is None
    &&& u.query is None
    &&& u.fragment is None
    &&& path_segments_of(u.path) matches Some(segments) && product_item_segment(segments) matches Some(
        item,
    ) && item.len() > 0 && all_digits(item)
}

fn is_product_locale(s: &[char]) -> (r: bool)
    ensures
        r == product_locale(s@),
{
    chars_eq(s, chars_of("ja").as_slice()) || chars_eq(s, chars_of("en").as_slice()) || chars_eq(
        s,
        chars_of("ko").as_slice(),
    ) || chars_eq(s, chars_of("zh-cn").as_slice()) || chars_eq(s, chars_of("zh-tw").as_slice())
}

/// Whether `url` is a public BOOTH product page, the only kind of page metadata is read from.
pub fn is_public_product_url(url: &WebUrl) -> (r: bool)
    ensures
        r == public_product_url(url@),
{
    if !chars_eq(chars_of(url.scheme.as_str()).as_slice(), chars_of("https").as_slice()) {
        return false;
    }
    match &url.host {
        Some(h) => {
            if !chars_eq(chars_of(h.as_str()).as_slice(), chars_of("booth.pm").as_slice()) {
                return false;
            }
        },
        None => {
            return false;
        },
    }
    if !url.username.as_str().is_empty() || url.password.is_some() || url.port.is_some()
        || url.query.is_some() || url.fragment.is_some() {
        return false;
    }
    let path = chars_of(url.path.as_str());
    if path.len() == 0 || path[0] != '/' {
        return false;
    }
    let rest = slice_vec(path.as_slice(), 1, path.len());
    assert(rest@ =~= path@.drop_first());
    let slash = vec!['/'];
    assert(slash@ =~= seq!['/']);
    let segments = split_by(rest.as_slice(), slash.as_slice());
    let ghost segs = segments.deep_view();
    let items = chars_of("items");
    if segments.len() == 2 {
        assert(segments[0].deep_view() =~= segments[0]@);
        assert(segments[1].deep_view() =~= segments[1]@);
        assert(segs[0] == segments[0]@ && segs[1] == segments[1]@);
        if !chars_eq(segments[0].as_slice(), items.as_slice()) {
            return false;
        }
        let item = &segments[1];
        item.len() > 0 && is_all_digits(item.as_slice())
    } else if segments.len() == 3 {
        assert(segments[0].deep_view() =~= segments[0]@);
        assert(segments[1].deep_view() =~= segments[1]@);
        assert(segments[2].deep_view() =~= segments[2]@);
        assert(segs[0] == segments[0]@ && segs[1] == segments[1]@ && segs[2] == segments[2]@);
        if !is_product_locale(segments[0].as_slice()) || !chars_eq(
            segments[1].as_slice(),
            items.as_slice(),
        ) {
            return false;
        }
        let item = &segments[2];
        item.len() > 0 && is_all_digits(item.as_slice())
    } else {
        false
    }
}

/// Whether a redirect to `target` is followed, after `previous` redirects were followed:
/// at most three, and only to public product pages.
pub fn follow_metadata_redirect(previous: usize, target: &WebUrl) -> (r: bool)
    ensures
        r == (previous < MAX_METADATA_REDIRECTS && public_product_url(target@)),
{
    previous < MAX_METADATA_REDIRECTS && is_public_product_url(target)
}

/// The ASCII lower-case form of a byte.
pub open spec fn byte_lower(b: u8) -> u8 {
    if 65 <= b <= 90 {
        (b + 32) as u8
    } else {
        b
    }
}

/// `needle` occurs in `haystack` at `i`, ASCII letters compared without case.
pub open spec fn occurs_ignoring_case_at(haystack: Seq<u8>, needle: Seq<u8>, i: int) -> bool {
    &&& 0 <= i
    &&& i + needle.len() <= haystack.len()
    &&& forall|j: int| 0 <= j < needle.len() ==> byte_lower(#[trigger] haystack[i + j]) == byte_lower(
        needle[j],
    )
}

/// `needle` occurs somewhere in `haystack`, ASCII letters compared without case.
pub open spec fn contains_ignoring_case(haystack: Seq<u8>, needle: Seq<u8>) -> bool {
    exists|i: int| occurs_ignoring_case_at(haystack, needle, i)
}

fn to_byte_lower(b: u8) -> (r: u8)
    ensures
        r == byte_lower(b),
{
    if 65 <= b && b <= 90 {
        b + 32
    } else {
        b
    }
}

/// Whether `needle` occurs in `haystack`, ASCII letters compared without case.
pub fn contains_ascii_case_insensitive(haystack: &[u8], needle: &[u8]) -> (r: bool)
    requires
        needle@.len() > 0,
    ensures
        r == contains_ignoring_case(haystack@, needle@),
{
    if needle.len() > haystack.len() {
        assert forall|i: int| !occurs_ignoring_case_at(haystack@, needle@, i) by {}
        return false;
    }
    let last: usize = haystack.len() - needle.len();
    let mut i: usize = 0;
    while i <= last
        invariant
            last == haystack@.len() - needle@.len(),
            0 < needle@.len() <= haystack@.len(),
            haystack@.len() == haystack.len(),
            i <= last + 1,
            forall|k: int| 0 <= k < i ==> !occurs_ignoring_case_at(haystack@, needle@, k),
        decreases last + 1 - i,
    {
        let mut j: usize = 0;
        let mut same = true;
        while j < needle.len()
            invariant
                i <= last,
                last == haystack@.len() - needle@.len(),
                needle@.len() <= haystack@.len(),
                haystack@.len() == haystack.len(),
                j <= needle@.len(),
                same ==> forall|m: int| 0 <= m < j ==> byte_lower(#[trigger] haystack@[i + m])
                    == byte_lower(needle@[m]),
                !same ==> !occurs_ignoring_case_at(haystack@, needle@, i as int),
            decreases needle.len() - j,
        {
            if same && to_byte_lower(haystack[i + j]) != to_byte_lower(needle[j]) {
                same = false;
                assert(byte_lower(haystack@[i + j as int]) != byte_lower(needle@[j as int]));
            }
            j += 1;
        }
        if same {
            assert(occurs_ignoring_case_at(haystack@, needle@, i as int));
            return true;
        }
        i += 1;
    }
    assert forall|k: int| !occurs_ignoring_case_at(haystack@, needle@, k) by {
        if occurs_ignoring_case_at(haystack@, needle@, k) {
            assert(k < i);
        }
    }
    false
}

/// The bytes of the closing `</head>` tag.
pub open spec fn head_close_tag() -> Seq<u8> {
    seq![60u8, 47u8, 104u8, 101u8, 97u8, 100u8, 62u8]
}

/// What one more chunk of a product page means for reading its `<head>`.
pub enum HeadRead {
    /// The page would exceed the byte limit; reading stops without a result.
    TooLarge,
    /// The closing `</head>` tag has arrived; reading stops.
    Complete,
    /// More of the page is needed.
    NeedMore,
}

/// Adds `chunk` to the `body` read so far, unless that would exceed `MAX_HTML_BYTES`, and
/// says whether the `<head>` is complete.
pub fn read_html_head_step(body: &mut Vec<u8>, chunk: &[u8]) -> (r: HeadRead)
    ensures
        old(body)@.len() + chunk@.len() > MAX_HTML_BYTES ==> r is TooLarge && final(body)@ == old(
            body,
        )@,
        old(body)@.len() + chunk@.len() <= MAX_HTML_BYTES ==> final(body)@ == old(body)@ + chunk@
            && !(r is TooLarge) && (r is Complete <==> contains_ignoring_case(
            final(body)@,
            head_close_tag(),
        )),
{
    if chunk.len() > MAX_HTML_BYTES || body.len() > MAX_HTML_BYTES - chunk.len() {
        return HeadRead::TooLarge;
    }
    let ghost start = body@;
    let mut i: usize = 0;
    while i < chunk.len()
        invariant
            i <= chunk@.len(),
            body@ == start + chunk@.take(i as int),
        decreases chunk.len() - i,
    {
        body.push(chunk[i]);
        assert(chunk@.take(i as int + 1) =~= chunk@.take(i as int).push(chunk@[i as int]));
        i += 1;
    }
    assert(chunk@.take(chunk@.len() as int) =~= chunk@);
    let tag: [u8; 7] = [60u8, 47u8, 104u8, 101u8, 97u8, 100u8, 62u8];
    assert(tag@ =~= head_close_tag());
    if contains_ascii_case_insensitive(body.as_slice(), tag.as_slice()) {
        HeadRead::Complete
    } else {
        HeadRead::NeedMore
    }
}

/// `a - b` clamped to the range of `i64`, as `i64::saturating_sub` computes it.
pub open spec fn saturating_difference(a: int, b: int) -> int {
    if a - b > i64::MAX {
        i64::MAX as int
    } else if a - b < i64::MIN {
        i64::MIN as int
    } else {
        a - b
    }
}

/// `a + b` clamped to the range of `i64`, as `i64::saturating_add` computes it.
pub open spec fn saturating_sum(a: int, b: int) -> int {
    if a + b > i64::MAX {
        i64::MAX as int
    } else if a + b < i64::MIN {
        i64::MIN as int
    } else {
        a + b
    }
}

/// `a - b` clamped to the range of `i64`.
pub fn saturating_sub_i64(a: i64, b: i64) -> (r: i64)
    ensures
        r == saturating_difference(a as int, b as int),
{
    let d: i128 = a as i128 - b as i128;
    if d > 9223372036854775807i128 {
        9223372036854775807i64
    } else if d < -9223372036854775808i128 {
        -9223372036854775808i64
    } else {
        d as i64
    }
}

/// `a + b` clamped to the range of `i64`.
pub fn saturating_add_i64(a: i64, b: i64) -> (r: i64)
    ensures
        r == saturating_sum(a as int, b as int),
{
    let d: i128 = a as i128 + b as i128;
    if d > 9223372036854775807i128 {
        9223372036854775807i64
    } else if d < -9223372036854775808i128 {
        -9223372036854775808i64
    } else {
        d as i64
    }
}

/// The seconds from `now` until `at`, never negative.
pub open spec fn seconds_until_spec(at: int, now: int) -> int {
    let d = saturating_difference(at, now);
    if d < 0 {
        0
    } else {
        d
    }
}

/// The seconds from `now` until the instant `retry_at`, or zero when it has passed.
pub fn seconds_until(retry_at: i64, now: i64) -> (r: i64)
    ensures
        r == seconds_until_spec(retry_at as int, now as int),
        r >= 0,
{
    let d = saturating_sub_i64(retry_at, now);
    if d < 0 {
        0
    } else {
        d
    }
}

/// The Unix timestamp that `chrono::DateTime::parse_from_rfc2822` reads from `text`, if it
/// reads an RFC 2822 date there.
pub uninterp spec fn rfc2822_timestamp(text: Seq<char>) -> Option<int>;

/// Calls `chrono::DateTime::parse_from_rfc2822` and takes the Unix timestamp of the result.
/// Which texts are dates, and their instants, are named rather than restated.
#[verifier::external_body]
fn parse_rfc2822_timestamp(text: &str) -> (r: Option<i64>)
    ensures
        match r {
            Some(t) => rfc2822_timestamp(text@) == Some(t as int),
            None => rfc2822_timestamp(text@) is None,
        },
{
    match chrono::DateTime::parse_from_rfc2822(text) {
        Ok(at) => Some(at.timestamp()),
        Err(_) => None,
    }
}

/// The pause a `Retry-After` value asks for: a count of seconds, or the time until an HTTP
/// date; a negative count is refused.
pub open spec fn retry_after_spec(value: Seq<char>, now: int) -> Option<int> {
    let t = trim_ws(value);
    match signed_decimal(t) {
        Some(seconds) => if seconds >= 0 {
            Some(seconds)
        } else {
            None
        },
        None => match rfc2822_timestamp(t) {
            Some(at) => Some(seconds_until_spec(at, now)),
            None => None,
        },
    }
}

/// Reads a `Retry-After` header value as seconds to wait from `now`.
pub fn parse_retry_after_seconds(value: &str, now: i64) -> (r: Option<i64>)
    ensures
        match r {
            Some(s) => retry_after_spec(value@, now as int) == Some(s as int) && s >= 0,
            None => retry_after_spec(value@, now as int) is None,
        },
{
    let trimmed = trim(chars_of(value).as_slice());
    match parse_i64(trimmed.as_slice()) {
        Some(seconds) => if seconds >= 0 {
            Some(seconds)
        } else {
            None
        },
        None => {
            let text = string_of(trimmed.as_slice());
            match parse_rfc2822_timestamp(text.as_str()) {
                Some(at) => Some(seconds_until(at, now)),
                None => None,
            }
        },
    }
}

/// The instant until which metadata requests pause after BOOTH refused one for being too
/// frequent: at least a day, longer when `Retry-After` asks for longer.
pub open spec fn rate_limit_pause_until_spec(retry_after: Option<Seq<char>>, now: int) -> int {
    let asked = match retry_after {
        Some(v) => retry_after_spec(v, now),
        None => None,
    };
    let seconds = match asked {
        Some(s) => if s > DEFAULT_RATE_LIMIT_PAUSE_SECONDS {
            s
        } else {
            DEFAULT_RATE_LIMIT_PAUSE_SECONDS as int
        },
        None => DEFAULT_RATE_LIMIT_PAUSE_SECONDS as int,
    };
    saturating_sum(now, seconds)
}

/// The instant until which metadata requests pause after a "too many requests" answer.
pub fn rate_limit_pause_until(retry_after: Option<&str>, now: i64) -> (r: i64)
    ensures
        r == rate_limit_pause_until_spec(
            match retry_after {
                Some(v) => Some(v@),
                None => None,
            },
            now as int,
        ),
{
    let asked = match retry_after {
        Some(v) => parse_retry_after_seconds(v, now),
        None => None,
    };
    let seconds = match asked {
        Some(s) => if s > DEFAULT_RATE_LIMIT_PAUSE_SECONDS {
            s
        } else {
            DEFAULT_RATE_LIMIT_PAUSE_SECONDS
        },
        None => DEFAULT_RATE_LIMIT_PAUSE_SECONDS,
    };
    saturating_add_i64(now, seconds)
}

/// A `Content-Type` whose lower-case form starts with `text/html`.
pub open spec fn html_content_type(value: Option<Seq<char>>) -> bool {
    value matches Some(v) && has_prefix(v.map_values(|c: char| ascii_lower(c)), "text/html"@)
}

/// Whether a `Content-Type` header value announces HTML.
pub fn is_html_content_type(value: Option<&str>) -> (r: bool)
    ensures
        r == html_content_type(
            match value {
                Some(v) => Some(v@),
                None => None,
            },
        ),
{
    match value {
        None => false,
        Some(v) => {
            let chars = chars_of(v);
            let mut lower: Vec<char> = Vec::new();
            let mut i: usize = 0;
            while i < chars.len()
                invariant
                    i <= chars@.len(),
                    lower@ == chars@.take(i as int).map_values(|c: char| ascii_lower(c)),
                decreases chars.len() - i,
            {
                lower.push(to_ascii_lower(chars[i]));
                assert(chars@.take(i as int + 1).map_values(|c: char| ascii_lower(c)) =~= chars@.take(
                    i as int,
                ).map_values(|c: char| ascii_lower(c)).push(ascii_lower(chars@[i as int])));
                i += 1;
            }
            assert(chars@.take(chars@.len() as int) =~= chars@);
            starts_with(lower.as_slice(), chars_of("text/html").as_slice())
        },
    }
}

/// What the answer to a product page request leads to.
pub enum MetadataResponse {
    /// BOOTH asked for fewer requests: pause until the given instant.
    RateLimited { pause_until: i64 },
    /// The answer carries no usable metadata.
    Unavailable,
    /// The answer is a public product page in HTML: read its head.
    ReadBody,
}

/// The decision taken on a product page answer with HTTP `status`, reached at `final_url`.
pub open spec fn metadata_response_spec(
    status: u16,
    final_url: UrlView,
    content_type: Option<Seq<char>>,
    retry_after: Option<Seq<char>>,
    now: int,
) -> MetadataResponse {
    if status == 429 {
        MetadataResponse::RateLimited {
            pause_until: rate_limit_pause_until_spec(retry_after, now) as i64,
        }
    } else if !(200 <= status <= 299) || !public_product_url(final_url) {
        MetadataResponse::Unavailable
    } else if !html_content_type(content_type) {
        MetadataResponse::Unavailable
    } else {
        MetadataResponse::ReadBody
    }
}

/// Decides what an answer to a product page request leads to.
pub fn classify_metadata_response(
    status: u16,
    final_url: &WebUrl,
    content_type: Option<&str>,
    retry_after: Option<&str>,
    now: i64,
) -> (r: MetadataResponse)
    ensures
        r == metadata_response_spec(
            status,
            final_url@,
            match content_type {
                Some(v) => Some(v@),
                None => None,
            },
            match retry_after {
                Some(v) => Some(v@),
                None => None,
            },
            now as int,
        ),
{
    if status == 429 {
        return MetadataResponse::RateLimited { pause_until: rate_limit_pause_until(retry_after, now) };
    }
    if !(200 <= status && status <= 299) || !is_public_product_url(final_url) {
        return MetadataResponse::Unavailable;
    }
    if !is_html_content_type(content_type) {
        return MetadataResponse::Unavailable;
    }
    MetadataResponse::ReadBody
}

/// What `scraper` finds in the HTML document `html`: `None` when `selector` is not a valid
/// CSS selector, otherwise the `attr` attribute of the first element that matches it, if
/// there is such an element with that attribute.
pub uninterp spec fn html_first_attr(html: Seq<char>, selector: Seq<char>, attr: Seq<char>) -> Option<
    Option<Seq<char>>,
>;

/// Parses `html` with `scraper::Html::parse_document` and `selector` with
/// `scraper::Selector::parse`, and reads the attribute `attr` of the first matching element.
/// The HTML and CSS parsing are named rather than restated.
#[verifier::external_body]
fn select_first_attr(html: &str, selector: &str, attr: &str) -> (r: Option<Option<String>>)
    ensures
        match r {
            None => html_first_attr(html@, selector@, attr@) is None,
            Some(None) => html_first_attr(html@, selector@, attr@) == Some(None::<Seq<char>>),
            Some(Some(v)) => html_first_attr(html@, selector@, attr@) == Some(Some(v@)),
        },
{
    let document = scraper::Html::parse_document(html);
    match scraper::Selector::parse(selector) {
        Ok(parsed) => match document.select(&parsed).next() {
            Some(element) => Some(element.value().attr(attr).map(str::to_owned)),
            None => Some(None),
        },
        Err(_) => None,
    }
}

/// The title without BOOTH's own ` - BOOTH` or ` | BOOTH` suffix.
pub open spec fn without_booth_suffix(title: Seq<char>) -> Seq<char> {
    if has_suffix(title, " - BOOTH"@) || has_suffix(title, " | BOOTH"@) {
        title.take(title.len() - 8)
    } else {
        title
    }
}

/// `i` is the last position at which `p` occurs in `s`.
pub open spec fn is_last_occurrence(s: Seq<char>, p: Seq<char>, i: int) -> bool {
    occurs_at(s, p, i) && forall|j: int| i < j ==> !occurs_at(s, p, j)
}

/// The product name and shop name that a page title `{name} - {shop}` holds: split at the
/// last ` - `, each part trimmed; a title without ` - ` is a name sold by `BOOTH`.
pub open spec fn title_parts(title: Seq<char>) -> (Seq<char>, Seq<char>) {
    if exists|i: int| is_last_occurrence(title, " - "@, i) {
        let i = choose|i: int| is_last_occurrence(title, " - "@, i);
        (trim_ws(title.take(i)), trim_ws(title.skip(i + 3)))
    } else {
        (title, "BOOTH"@)
    }
}

/// An image on BOOTH's own image host, `booth.pximg.net` or one of its subdomains, over HTTPS.
pub open spec fn trusted_thumbnail(u: UrlView) -> bool {
    &&& u.scheme == "https"@
    &&& u.host matches Some(h) && (h == "booth.pximg.net"@ || has_suffix(h, ".booth.pximg.net"@))
}

/// The thumbnail address kept from an `og:image` value.
pub open spec fn thumbnail_of(image: Option<Seq<char>>) -> Option<Seq<char>> {
    match image {
        Some(v) => match url_parse_result(trim_ws(v)) {
            Ok(u) => if trusted_thumbnail(u) {
                Some(u.text)
            } else {
                None
            },
            Err(_) => None,
        },
        None => None,
    }
}

/// The product that the `og:title` and `og:image` values of a page describe.
pub open spec fn product_from_og_spec(
    title: Seq<char>,
    image: Option<Seq<char>>,
    item_id: i64,
    product_url: Seq<char>,
) -> Option<ProductInputView> {
    let parts = title_parts(without_booth_suffix(trim_ws(title)));
    if parts.0.len() == 0 {
        None
    } else {
        Some(
            ProductInputView {
                item_id,
                name: parts.0,
                shop_name: parts.1,
                shop_subdomain: None,
                product_url,
                thumbnail_url: thumbnail_of(image),
            },
        )
    }
}

/// The serialized address of `url` when it is a trusted BOOTH image.
pub fn thumbnail_from_url(url: &WebUrl) -> (r: Option<String>)
    ensures
        r matches Some(t) ==> trusted_thumbnail(url@) && t@ == url@.text,
        r is None ==> !trusted_thumbnail(url@),
{
    if !chars_eq(chars_of(url.scheme.as_str()).as_slice(), chars_of("https").as_slice()) {
        return None;
    }
    match &url.host {
        Some(h) => {
            let host = chars_of(h.as_str());
            if chars_eq(host.as_slice(), chars_of("booth.pximg.net").as_slice()) || ends_with(
                host.as_slice(),
                chars_of(".booth.pximg.net").as_slice(),
            ) {
                Some(string_of(chars_of(url.text.as_str()).as_slice()))
            } else {
                None
            }
        },
        None => None,
    }
}

fn split_title(title: &[char]) -> (r: (Vec<char>, Vec<char>))
    ensures
        (r.0@, r.1@) == title_parts(title@),
{
    let sep = chars_of(" - ");
    proof {
        reveal_strlit(" - ");
    }
    match find_last(title, sep.as_slice()) {
        Some(i) => {
            proof {
                assert(is_last_occurrence(title@, " - "@, i as int));
                let c = choose|k: int| is_last_occurrence(title@, " - "@, k);
                if c != i as int {
                    if c < i {
                        assert(!occurs_at(title@, " - "@, i as int));
                    } else {
                        assert(!occurs_at(title@, " - "@, c));
                    }
                }
            }
            assert(title@.len() == title.len());
            let name = trim(slice_vec(title, 0, i).as_slice());
            let shop = trim(slice_vec(title, i + 3, title.len()).as_slice());
            assert(title@.subrange(0, i as int) =~= title@.take(i as int));
            assert(title@.subrange(i + 3, title@.len() as int) =~= title@.skip(i + 3));
            (name, shop)
        },
        None => {
            assert(!exists|k: int| is_last_occurrence(title@, " - "@, k));
            (crate::text::vec_of(title), chars_of("BOOTH"))
        },
    }
}

/// Builds the product that a page's `og:title` and `og:image` values describe; `None` when
/// the title leaves no product name.
pub fn product_from_open_graph(
    title: &str,
    image: Option<&str>,
    item_id: i64,
    product_url: String,
) -> (r: Option<UpsertProductInput>)
    ensures
        match r {
            Some(p) => product_from_og_spec(
                title@,
                match image {
                    Some(v) => Some(v@),
                    None => None,
                },
                item_id,
                product_url@,
            ) == Some(p@),
            None => product_from_og_spec(
                title@,
                match image {
                    Some(v) => Some(v@),
                    None => None,
                },
                item_id,
                product_url@,
            ) is None,
        },
{
    let raw = trim(chars_of(title).as_slice());
    proof {
        reveal_strlit(" - BOOTH");
        reveal_strlit(" | BOOTH");
    }
    let plain = if ends_with(raw.as_slice(), chars_of(" - BOOTH").as_slice()) || ends_with(
        raw.as_slice(),
        chars_of(" | BOOTH").as_slice(),
    ) {
        slice_vec(raw.as_slice(), 0, raw.len() - 8)
    } else {
        crate::text::vec_of(raw.as_slice())
    };
    assert(plain@ == without_booth_suffix(trim_ws(title@)));
    let (name, shop) = split_title(plain.as_slice());
    if name.len() == 0 {
        return None;
    }
    let thumbnail = match image {
        Some(v) => {
            let trimmed = string_of(trim(chars_of(v).as_slice()).as_slice());
            match WebUrl::parse(trimmed.as_str()) {
                Ok(u) => thumbnail_from_url(&u),
                Err(_) => None,
            }
        },
        None => None,
    };
    Some(
        UpsertProductInput {
            item_id,
            name: string_of(name.as_slice()),
            shop_name: string_of(shop.as_slice()),
            shop_subdomain: None,
            product_url,
            thumbnail_url: thumbnail,
        },
    )
}

/// The product a fetched page describes, read from its Open Graph `og:title` and
/// `og:image` meta tags.
pub open spec fn parsed_product_spec(html: Seq<char>, item_id: i64, product_url: Seq<char>) -> Option<
    ProductInputView,
> {
    let title = html_first_attr(html, "meta[property='og:title']"@, "content"@);
    let image = html_first_attr(html, "meta[property='og:image']"@, "content"@);
    match (title, image) {
        (Some(Some(t)), Some(i)) => product_from_og_spec(t, i, item_id, product_url),
        _ => None,
    }
}

/// Reads the product that a BOOTH product page describes.
pub fn parse_product_metadata(text: &str, item_id: i64, product_url: String) -> (r: Option<
    UpsertProductInput,
>)
    ensures
        match r {
            Some(p) => parsed_product_spec(text@, item_id, product_url@) == Some(p@),
            None => parsed_product_spec(text@, item_id, product_url@) is None,
        },
{
    let title = select_first_attr(text, "meta[property='og:title']", "content");
    let image = select_first_attr(text, "meta[property='og:image']", "content");
    match (title, image) {
        (Some(Some(t)), Some(i)) => {
            let image_text = match &i {
                Some(v) => Some(v.as_str()),
                None => None,
            };
            product_from_open_graph(t.as_str(), image_text, item_id, product_url)
        },
        _ => None,
    }
}

/// What a metadata fetch came to.
pub enum FetchOutcome {
    /// The product page was read.
    Success(UpsertProductInput),
    /// BOOTH asked to pause requests until the given instant.
    RateLimited { pause_until: i64 },
    /// Nothing usable came back.
    Unavailable,
}

/// What to do once a metadata fetch has come to an outcome.
pub enum MetadataFollowUp {
    /// Store the product as freshly fetched and use it.
    Store(UpsertProductInput),
    /// Pause further fetches until `until`, and use the earlier metadata, if any.
    Pause { until: i64, fallback: Option<UpsertProductInput> },
    /// Use the earlier metadata, if any.
    Fallback(Option<UpsertProductInput>),
}

/// A successful fetch is stored and used; a refusal pauses further fetches; otherwise the
/// earlier (stale) metadata is used.
pub fn follow_up_fetch(outcome: FetchOutcome, stale: Option<UpsertProductInput>) -> (r:
    MetadataFollowUp)
    ensures
        outcome matches FetchOutcome::Success(p) ==> r == MetadataFollowUp::Store(p),
        outcome matches FetchOutcome::RateLimited { pause_until } ==> r == (MetadataFollowUp::Pause {
            until: pause_until,
            fallback: stale,
        }),
        outcome is Unavailable ==> r == MetadataFollowUp::Fallback(stale),
{
    match outcome {
        FetchOutcome::Success(p) => MetadataFollowUp::Store(p),
        FetchOutcome::RateLimited { pause_until } => MetadataFollowUp::Pause {
            until: pause_until,
            fallback: stale,
        },
        FetchOutcome::Unavailable => MetadataFollowUp::Fallback(stale),
    }
}


/// After a "too many requests" answer, requests pause for at least a day, or until the
/// latest representable instant.
pub proof fn lemma_rate_limit_pause_is_at_least_a_day(retry_after: Option<Seq<char>>, now: i64)
    ensures
        rate_limit_pause_until_spec(retry_after, now as int) == i64::MAX
            || rate_limit_pause_until_spec(retry_after, now as int) >= now + DEFAULT_RATE_LIMIT_PAUSE_SECONDS,
{
}

/// A `Retry-After` that asks for a longer pause than a day is honoured in full, when the
/// instant is representable.
pub proof fn lemma_rate_limit_pause_honours_retry_after(value: Seq<char>, seconds: int, now: i64)
    requires
        retry_after_spec(value, now as int) == Some(seconds),
        now + seconds <= i64::MAX,
    ensures
        rate_limit_pause_until_spec(Some(value), now as int) >= now + seconds,
{
}

} // verus!
