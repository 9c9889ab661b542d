//! A parsed web address held as plain values, and the outside parsers it rests on.
use vstd::prelude::*;
use vstd::utf8::{decode_utf8, valid_utf8};


verus! {

/// The components of a parsed URL, as the `url` crate reports them.
pub struct WebUrl {
    pub text: String,
    pub scheme: String,
    pub username: String,
    pub password: Option<String>,
    pub host: Option<String>,
    pub port: Option<u16>,
    pub known_port: Option<u16>,
    pub path: String,
    pub query: Option<String>,
    pub fragment: Option<String>,
}

/// The mathematical form of a `WebUrl`.
pub struct UrlView {
    pub text: Seq<char>,
    pub scheme: Seq<char>,
    pub username: Seq<char>,
    pub password: Option<Seq<char>>,
    pub host: Option<Seq<char>>,
    pub port: Option<u16>,
    pub known_port: Option<u16>,
    pub path: Seq<char>,
    pub query: Option<Seq<char>>,
    pub fragment: Option<Seq<char>>,
}

/// The view of an optional string.
pub open spec fn opt_view(o: Option<String>) -> Option<Seq<char>> {
    match o {
        Some(s) => Some(s@),
        None => None,
    }
}

impl View for WebUrl {
    type V = UrlView;

    open spec fn view(&self) -> UrlView {
        UrlView {
            text: self.text@,
            scheme: self.scheme@,
            username: self.username@,
            password: opt_view(self.password),
            host: opt_view(self.host),
            port: self.port,
            known_port: self.known_port,
            path: self.path@,
            query: opt_view(self.query),
            fragment: opt_view(self.fragment),
        }
    }
}

/// What `url::Url::parse` makes of `input`: the parsed components, or the text of its error.
pub uninterp spec fn url_parse_result(input: Seq<char>) -> Result<UrlView, Seq<char>>;

/// Calls `url::Url::parse` and reads the components of the result through its accessors.
/// The contract only names the outcome: WHATWG URL parsing is not restated here.
#[verifier::external_body]
fn parse_with_url_crate(input: &str) -> (r: Result<WebUrl, String>)
    ensures
        match r {
            Ok(u) => url_parse_result(input@) == Ok::<UrlView, Seq<char>>(u@),
            Err(e) => url_parse_result(input@) == Err::<UrlView, Seq<char>>(e@),
        },
{
    match url::Url::parse(input) {
        Ok(u) => Ok(WebUrl {
            text: u.as_str().to_owned(),
            scheme: u.scheme().to_owned(),
            username: u.username().to_owned(),
            password: u.password().map(str::to_owned),
            host: u.host_str().map(str::to_owned),
            port: u.port(),
            known_port: u.port_or_known_default(),
            path: u.path().to_owned(),
            query: u.query().map(str::to_owned),
            fragment: u.fragment().map(str::to_owned),
        }),
        Err(e) => Err(e.to_string()),
    }
}

impl WebUrl {
    /// Parses `input` as an absolute URL; the error holds the parser's message.
    pub fn parse(input: &str) -> (r: Result<WebUrl, String>)
        ensures
            match r {
                Ok(u) => url_parse_result(input@) == Ok::<UrlView, Seq<char>>(u@),
                Err(e) => url_parse_result(input@) == Err::<UrlView, Seq<char>>(e@),
            },
    {
        parse_with_url_crate(input)
    }
}

/// What the `url` crate serializes for the address `u` once `set_fragment(None)`,
/// `set_query(None)`, `set_username("")` and `set_password(None)` are applied, or `None` when
/// it refuses one of them.
pub uninterp spec fn url_cleared_text(u: UrlView) -> Option<Seq<char>>;

/// Takes the `url::Url` that `url`'s serialization is, and applies `set_fragment(None)`,
/// `set_query(None)`, `set_username("")` and `set_password(None)`, as the toolbar display
/// asks. The result is named rather than restated.
#[verifier::external_body]
pub(crate) fn cleared_with_url_crate(url: &WebUrl) -> (r: Option<String>)
    ensures
        opt_view(r) == url_cleared_text(url@),
{
    let mut display = url::Url::parse(url.text.as_str()).ok()?;
    display.set_fragment(None);
    display.set_query(None);
    display.set_username("").ok()?;
    display.set_password(None).ok()?;
    Some(display.into())
}

/// What the `url` crate serializes for the address `text` once
/// `query_pairs_mut().append_pair(name, value)` is applied, or `None` when `text` is not an
/// address.
pub uninterp spec fn url_with_pair_text(text: Seq<char>, name: Seq<char>, value: Seq<char>) -> Option<
    Seq<char>,
>;

/// Takes the `url::Url` that `text` serializes and appends the query pair `name=value` with
/// `query_pairs_mut().append_pair`. The result is named rather than restated.
#[verifier::external_body]
pub(crate) fn append_pair_with_url_crate(text: &str, name: &str, value: &str) -> (r: Option<String>)
    ensures
        opt_view(r) == url_with_pair_text(text@, name@, value@),
{
    let mut display = url::Url::parse(text).ok()?;
    display.query_pairs_mut().append_pair(name, value);
    Some(display.into())
}

/// The name-value pairs that `form_urlencoded::parse` decodes from `query`.
pub uninterp spec fn form_pairs(query: Seq<char>) -> Seq<(Seq<char>, Seq<char>)>;

/// Calls `url::form_urlencoded::parse` on the query text and collects its pairs as strings.
/// The contract names the outcome, and states only that an empty query yields no pairs: the
/// `application/x-www-form-urlencoded` decoding is not restated here.
#[verifier::external_body]
fn form_pairs_with_url_crate(query: &str) -> (r: Vec<(String, String)>)
    ensures
        r.deep_view() == form_pairs(query@),
        query@.len() == 0 ==> r.deep_view().len() == 0,
{
    url::form_urlencoded::parse(query.as_bytes())
        .map(|(name, value)| (name.into_owned(), value.into_owned()))
        .collect()
}

/// The name-value pairs of a URL's query, as `Url::query_pairs` yields them.
pub open spec fn query_pairs_of(u: UrlView) -> Seq<(Seq<char>, Seq<char>)> {
    match u.query {
        Some(q) => form_pairs(q),
        None => form_pairs(Seq::empty()),
    }
}

impl WebUrl {
    /// The decoded name-value pairs of the query.
    pub fn query_pairs(&self) -> (r: Vec<(String, String)>)
        ensures
            r.deep_view() == query_pairs_of(self@),
    {
        match &self.query {
            Some(q) => form_pairs_with_url_crate(q.as_str()),
            None => {
                let empty = String::new();
                form_pairs_with_url_crate(empty.as_str())
            },
        }
    }
}

/// An ASCII hexadecimal digit.
pub open spec fn is_hex_byte(b: u8) -> bool {
    (48 <= b <= 57) || (65 <= b <= 70) || (97 <= b <= 102)
}

/// The value of a hexadecimal digit byte.
pub open spec fn hex_value(b: u8) -> int {
    if 48 <= b <= 57 {
        b - 48
    } else if 65 <= b <= 70 {
        b - 55
    } else {
        b - 87
    }
}

/// Percent-decoding: every `%` followed by two hexadecimal digits becomes the byte they write.
pub open spec fn percent_decode_bytes(b: Seq<u8>) -> Seq<u8>
    decreases b.len(),
{
    if b.len() == 0 {
        Seq::empty()
    } else if b.len() >= 3 && b[0] == 37u8 && is_hex_byte(b[1]) && is_hex_byte(b[2]) {
        seq![(hex_value(b[1]) * 16 + hex_value(b[2])) as u8] + percent_decode_bytes(b.skip(3))
    } else {
        seq![b[0]] + percent_decode_bytes(b.skip(1))
    }
}

/// The text that percent-decoding `s` and reading the bytes as UTF-8 gives, if they are UTF-8.
pub open spec fn percent_decoded_text(s: Seq<char>) -> Option<Seq<char>> {
    let bytes = percent_decode_bytes(vstd::utf8::encode_utf8(s));
    if valid_utf8(bytes) {
        Some(decode_utf8(bytes))
    } else {
        None
    }
}

/// Calls `percent_encoding::percent_decode_str(..).decode_utf8()`: decodes each `%XX` escape and
/// reads the bytes as UTF-8, failing when they are not UTF-8.
#[verifier::external_body]
pub(crate) fn percent_decode_utf8(s: &str) -> (r: Option<String>)
    ensures
        match r {
            Some(t) => percent_decoded_text(s@) == Some(t@),
            None => percent_decoded_text(s@) is None,
        },
{
    match percent_encoding::percent_decode_str(s).decode_utf8() {
        Ok(text) => Some(text.into_owned()),
        Err(_) => None,
    }
}

/// The canonical hyphenated lower-case form that `uuid::Uuid::parse_str(s)` followed by
/// `to_string` gives, if `s` parses as a UUID.
pub uninterp spec fn uuid_canonical(s: Seq<char>) -> Option<Seq<char>>;

/// Calls `uuid::Uuid::parse_str` and formats an accepted UUID in hyphenated lower case.
/// Which inputs parse, and the canonical text, are named rather than restated.
#[verifier::external_body]
pub(crate) fn canonical_uuid(s: &str) -> (r: Option<String>)
    ensures
        match r {
            Some(t) => uuid_canonical(s@) == Some(t@),
            None => uuid_canonical(s@) is None,
        },
{
    match uuid::Uuid::parse_str(s) {
        Ok(id) => Some(id.to_string()),
        Err(_) => None,
    }
}

/// Calls `uuid::Uuid::new_v4` and formats it: a random identifier in the 36-character
/// hyphenated lower-case form, which is therefore its own canonical text. Nothing is promised
/// of which identifier comes out.
#[verifier::external_body]
pub(crate) fn new_uuid() -> (r: String)
    ensures
        r@.len() == 36,
        uuid_canonical(r@) == Some(r@),
{
    uuid::Uuid::new_v4().to_string()
}

/// A fresh random identifier for a staging file, an artifact record or a probe: 36
/// characters in canonical hyphenated UUID form.
pub fn fresh_identifier() -> (r: String)
    ensures
        r@.len() == 36,
        uuid_canonical(r@) == Some(r@),
{
    new_uuid()
}

} // verus!
