//! Decisions for the embedded BOOTH browser: which addresses it may show, what the local
//! action links carry, and the in-memory records of intents, notifications and actions.
use vstd::prelude::*;
use crate::security::{allowed_browser_url, is_allowed_browser_url};
use crate::keyed::KeyedStore;
use crate::error::AppError;
use crate::model::{DownloadRequest, DownloadRequestView, DownloadState, DownloadStatusEvent};
use crate::security::{safe_filename, safe_filename_result};
use crate::text::{
    all_digits, chars_eq, chars_of, has_prefix, i64_text, is_all_digits, parse_i64, push_i64,
    signed_decimal, starts_with, string_of, trim_end_in, trim_end_len,
};
use crate::weburl::{
    append_pair_with_url_crate, canonical_uuid, cleared_with_url_crate, opt_view, query_pairs_of,
    url_cleared_text, url_with_pair_text, uuid_canonical, UrlView, WebUrl,
};

verus! {

impl WebUrl {
    /// A copy of this address with the same components.
    pub fn copy(&self) -> (r: WebUrl)
        ensures
            r@ == self@,
    {
        WebUrl {
            text: self.text.clone(),
            scheme: self.scheme.clone(),
            username: self.username.clone(),
            password: copy_opt(&self.password),
            host: copy_opt(&self.host),
            port: self.port,
            known_port: self.known_port,
            path: self.path.clone(),
            query: copy_opt(&self.query),
            fragment: copy_opt(&self.fragment),
        }
    }
}

/// A copy of an optional string.
pub fn copy_opt(o: &Option<String>) -> (r: Option<String>)
    ensures
        opt_view(r) == opt_view(*o),
{
    match o {
        Some(s) => Some(s.clone()),
        None => None,
    }
}

/// The values of the pairs named `key`, in order.
pub open spec fn values_of(pairs: Seq<(Seq<char>, Seq<char>)>, key: Seq<char>) -> Seq<Seq<char>>
    decreases pairs.len(),
{
    if pairs.len() == 0 {
        Seq::empty()
    } else {
        let rest = values_of(pairs.drop_last(), key);
        if pairs.last().0 == key {
            rest.push(pairs.last().1)
        } else {
            rest
        }
    }
}

/// The values of the pairs named `key`, in order.
pub fn values_for(pairs: &Vec<(String, String)>, key: &str) -> (r: Vec<String>)
    ensures
        r.deep_view() == values_of(pairs.deep_view(), key@),
{
    let k = chars_of(key);
    let mut r: Vec<String> = Vec::new();
    let mut i: usize = 0;
    assert(pairs.deep_view().take(0) =~= Seq::<(Seq<char>, Seq<char>)>::empty());
    while i < pairs.len()
        invariant
            i <= pairs.len(),
            k@ == key@,
            r.deep_view() == values_of(pairs.deep_view().take(i as int), key@),
        decreases pairs.len() - i,
    {
        let ghost t = pairs.deep_view().take(i as int + 1);
        assert(t.drop_last() =~= pairs.deep_view().take(i as int));
        assert(t.last() == (pairs@[i as int].0@, pairs@[i as int].1@));
        let name = chars_of(pairs[i].0.as_str());
        if chars_eq(name.as_slice(), k.as_slice()) {
            let ghost old_r = r.deep_view();
            r.push(pairs[i].1.clone());
            assert(r.deep_view() =~= old_r.push(pairs@[i as int].1@));
        }
        i += 1;
    }
    assert(pairs.deep_view().take(pairs.len() as int) =~= pairs.deep_view());
    r
}

/// The value of the only pair named `key`, when exactly one pair has that name.
pub open spec fn unique_value(pairs: Seq<(Seq<char>, Seq<char>)>, key: Seq<char>) -> Option<
    Seq<char>,
> {
    let v = values_of(pairs, key);
    if v.len() == 1 {
        Some(v[0])
    } else {
        None
    }
}

/// `path` is empty or the single `/`.
pub open spec fn bare_path(path: Seq<char>) -> bool {
    path.len() == 0 || path == seq!['/']
}

/// An address of the application's own `booth-shelf` scheme, for the action `host`, with no
/// path, fragment, credentials or port.
pub open spec fn local_action(u: UrlView, host: Seq<char>) -> bool {
    &&& u.scheme == "booth-shelf"@
    &&& u.host == Some(host)
    &&& bare_path(u.path)
    &&& u.fragment is None
    &&& u.username.len() == 0
    &&& u.password is None
    &&& u.port is None
}

fn is_bare_path(path: &String) -> (r: bool)
    ensures
        r == bare_path(path@),
{
    let p = chars_of(path.as_str());
    let r = p.len() == 0 || (p.len() == 1 && p[0] == '/');
    proof {
        if p.len() == 1 && p[0] == '/' {
            assert(p@ =~= seq!['/']);
        }
        if p@ =~= seq!['/'] {
            assert(p@.len() == 1);
        }
    }
    r
}

fn is_local_action(url: &WebUrl, host: &str) -> (r: bool)
    ensures
        r == local_action(url@, host@),
{
    let scheme = chars_of(url.scheme.as_str());
    if !chars_eq(scheme.as_slice(), chars_of("booth-shelf").as_slice()) {
        return false;
    }
    let host_ok = match &url.host {
        Some(h) => chars_eq(chars_of(h.as_str()).as_slice(), chars_of(host).as_slice()),
        None => false,
    };
    host_ok && is_bare_path(&url.path) && url.fragment.is_none() && url.username.as_str().is_empty()
        && url.password.is_none() && url.port.is_none()
}

/// The request identifier a folder action carries: its only query pair must be `request_id`,
/// holding a UUID, which is returned in canonical form.
pub open spec fn folder_action_request_id(u: UrlView) -> Option<Seq<char>> {
    let pairs = query_pairs_of(u);
    if !local_action(u, "open-product-folder"@) || pairs.len() != 1 || pairs[0].0
        != "request_id"@ {
        None
    } else {
        uuid_canonical(pairs[0].1)
    }
}

/// Reads the request identifier of a `booth-shelf://open-product-folder` action.
pub fn open_folder_request_id(url: &WebUrl) -> (r: Option<String>)
    ensures
        match r {
            Some(id) => folder_action_request_id(url@) == Some(id@),
            None => folder_action_request_id(url@) is None,
        },
{
    if !is_local_action(url, "open-product-folder") {
        return None;
    }
    let pairs = url.query_pairs();
    if pairs.len() != 1 {
        return None;
    }
    assert(pairs.deep_view()[0] == (pairs@[0].0@, pairs@[0].1@));
    if !chars_eq(chars_of(pairs[0].0.as_str()).as_slice(), chars_of("request_id").as_slice()) {
        return None;
    }
    canonical_uuid(pairs[0].1.as_str())
}

/// An armed one-shot download intent, created at `created_at` (milliseconds).
pub struct NativeDownloadIntent {
    pub request_id: String,
    pub item_id: i64,
    pub variation_id: i64,
    pub downloadable_id: i64,
    pub created_at: u64,
}

/// A positive identifier as `str::parse::<i64>` reads it.
pub open spec fn positive_id(value: Option<Seq<char>>) -> Option<i64> {
    match value {
        None => None,
        Some(v) => match signed_decimal(v) {
            Some(n) => if n > 0 {
                Some(n as i64)
            } else {
                None
            },
            None => None,
        },
    }
}

/// The fields of a download intent: exactly four query pairs, naming a UUID request and
/// positive item, variation and downloadable identifiers, each exactly once.
pub struct IntentFields {
    pub request_id: Seq<char>,
    pub item_id: i64,
    pub variation_id: i64,
    pub downloadable_id: i64,
}

/// What a `booth-shelf://download-intent` address asks to arm, if it is well formed.
pub open spec fn intent_fields(u: UrlView) -> Option<IntentFields> {
    let pairs = query_pairs_of(u);
    if vstd::utf8::encode_utf8(u.text).len() > 512 || !local_action(u, "download-intent"@)
        || pairs.len() != 4 {
        None
    } else {
        match (
            unique_value(pairs, "request_id"@),
            positive_id(unique_value(pairs, "item_id"@)),
            positive_id(unique_value(pairs, "variation_id"@)),
            positive_id(unique_value(pairs, "downloadable_id"@)),
        ) {
            (Some(raw), Some(item_id), Some(variation_id), Some(downloadable_id)) => match uuid_canonical(
                raw,
            ) {
                Some(request_id) => Some(
                    IntentFields { request_id, item_id, variation_id, downloadable_id },
                ),
                None => None,
            },
            _ => None,
        }
    }
}

fn unique_value_for(pairs: &Vec<(String, String)>, key: &str) -> (r: Option<String>)
    ensures
        opt_view(r) == unique_value(pairs.deep_view(), key@),
{
    let values = values_for(pairs, key);
    if values.len() == 1 {
        assert(values@[0]@ == values.deep_view()[0]);
        Some(values[0].clone())
    } else {
        None
    }
}

fn positive_id_of(value: &Option<String>) -> (r: Option<i64>)
    ensures
        r == positive_id(opt_view(*value)),
{
    match value {
        None => None,
        Some(v) => match parse_i64(chars_of(v.as_str()).as_slice()) {
            Some(n) => if n > 0 {
                Some(n)
            } else {
                None
            },
            None => None,
        },
    }
}

/// Reads a download intent from a `booth-shelf://download-intent` address; `now` becomes
/// its creation time.
pub fn download_intent_from_url(url: &WebUrl, now: u64) -> (r: Option<NativeDownloadIntent>)
    ensures
        match (r, intent_fields(url@)) {
            (Some(i), Some(f)) => i.request_id@ == f.request_id && i.item_id == f.item_id
                && i.variation_id == f.variation_id && i.downloadable_id == f.downloadable_id
                && i.created_at == now,
            (None, None) => true,
            _ => false,
        },
{
    if url.text.as_str().as_bytes().len() > 512 || !is_local_action(url, "download-intent") {
        return None;
    }
    let pairs = url.query_pairs();
    if pairs.len() != 4 {
        return None;
    }
    let raw = unique_value_for(&pairs, "request_id");
    let item_id = positive_id_of(&unique_value_for(&pairs, "item_id"));
    let variation_id = positive_id_of(&unique_value_for(&pairs, "variation_id"));
    let downloadable_id = positive_id_of(&unique_value_for(&pairs, "downloadable_id"));
    match (raw, item_id, variation_id, downloadable_id) {
        (Some(raw), Some(item_id), Some(variation_id), Some(downloadable_id)) => {
            match canonical_uuid(raw.as_str()) {
                Some(request_id) => Some(
                    NativeDownloadIntent {
                        request_id,
                        item_id,
                        variation_id,
                        downloadable_id,
                        created_at: now,
                    },
                ),
                None => None,
            }
        },
        _ => None,
    }
}

/// The canonical UUID in the first `request_id` pair of an address, if it holds one.
pub open spec fn intent_request_id(u: UrlView) -> Option<Seq<char>> {
    let values = values_of(query_pairs_of(u), "request_id"@);
    if values.len() == 0 {
        None
    } else {
        uuid_canonical(values[0])
    }
}

/// The request identifier of a download intent, read even when the intent is refused so
/// that the refusal can be acknowledged.
pub fn download_intent_request_id(url: &WebUrl) -> (r: Option<String>)
    ensures
        match r {
            Some(id) => intent_request_id(url@) == Some(id@),
            None => intent_request_id(url@) is None,
        },
{
    let pairs = url.query_pairs();
    let values = values_for(&pairs, "request_id");
    if values.len() == 0 {
        None
    } else {
        assert(values@[0]@ == values.deep_view()[0]);
        canonical_uuid(values[0].as_str())
    }
}

/// `s` without trailing `/`.
pub open spec fn trim_slashes(s: Seq<char>) -> Seq<char> {
    trim_end_in(s, seq!['/'])
}

/// Whether a download that the embedded browser starts belongs to the armed intent: any
/// HTTPS response from `s6.booth.pm`, or the intent's own `booth.pm/downloadables/<id>`
/// endpoint whose `variation_id` (when there is exactly one) matches, or, with none given,
/// an intent whose variation is the downloadable itself.
pub open spec fn download_url_matches(u: UrlView, intent_variation: i64, intent_downloadable: i64) -> bool {
    if u.scheme != "https"@ {
        false
    } else if u.host == Some("s6.booth.pm"@) {
        true
    } else if u.host != Some("booth.pm"@) {
        false
    } else if trim_slashes(u.path) != "/downloadables/"@ + i64_text(intent_downloadable as int) {
        false
    } else {
        let variations = values_of(query_pairs_of(u), "variation_id"@);
        if variations.len() == 0 {
            intent_variation == intent_downloadable
        } else if variations.len() == 1 {
            variations[0] == i64_text(intent_variation as int)
        } else {
            false
        }
    }
}

/// Whether a browser download address belongs to the armed `intent`.
pub fn native_download_url_matches(url: &WebUrl, intent: &NativeDownloadIntent) -> (r: bool)
    ensures
        r == download_url_matches(url@, intent.variation_id, intent.downloadable_id),
{
    if !chars_eq(chars_of(url.scheme.as_str()).as_slice(), chars_of("https").as_slice()) {
        return false;
    }
    let host = match &url.host {
        Some(h) => chars_of(h.as_str()),
        None => {
            return false;
        },
    };
    if chars_eq(host.as_slice(), chars_of("s6.booth.pm").as_slice()) {
        return true;
    }
    if !chars_eq(host.as_slice(), chars_of("booth.pm").as_slice()) {
        return false;
    }
    let path = chars_of(url.path.as_str());
    let slash = vec!['/'];
    assert(slash@ =~= seq!['/']);
    let e = trim_end_len(path.as_slice(), slash.as_slice());
    let mut expected = chars_of("/downloadables/");
    push_i64(&mut expected, intent.downloadable_id);
    if !chars_eq(crate::text::slice_vec(path.as_slice(), 0, e).as_slice(), expected.as_slice()) {
        return false;
    }
    let pairs = url.query_pairs();
    let variations = values_for(&pairs, "variation_id");
    if variations.len() == 0 {
        intent.variation_id == intent.downloadable_id
    } else if variations.len() == 1 {
        let mut wanted: Vec<char> = Vec::new();
        push_i64(&mut wanted, intent.variation_id);
        assert(wanted@ =~= i64_text(intent.variation_id as int));
        assert(variations@[0]@ == variations.deep_view()[0]);
        chars_eq(chars_of(variations[0].as_str()).as_slice(), wanted.as_slice())
    } else {
        false
    }
}


/// The BOOTH top page, `https://booth.pm/ja`, without query or fragment.
pub open spec fn booth_entry(u: UrlView) -> bool {
    u.scheme == "https"@ && u.host == Some("booth.pm"@) && trim_slashes(u.path) == "/ja"@
        && u.query is None && u.fragment is None
}

/// The BOOTH library entry, `https://accounts.booth.pm/library`, without query or fragment.
pub open spec fn library_entry(u: UrlView) -> bool {
    u.scheme == "https"@ && u.host == Some("accounts.booth.pm"@) && trim_slashes(u.path)
        == "/library"@ && u.query is None && u.fragment is None
}

/// Any HTTPS page of `booth.pm`.
pub open spec fn booth_page(u: UrlView) -> bool {
    u.scheme == "https"@ && u.host == Some("booth.pm"@)
}

/// Any HTTPS page of the BOOTH library under `accounts.booth.pm/library`.
pub open spec fn library_page(u: UrlView) -> bool {
    u.scheme == "https"@ && u.host == Some("accounts.booth.pm"@) && (trim_slashes(u.path)
        == "/library"@ || has_prefix(u.path, "/library/"@))
}

fn is_https_on(url: &WebUrl, host: &str) -> (r: bool)
    ensures
        r == (url@.scheme == "https"@ && url@.host == Some(host@)),
{
    if !chars_eq(chars_of(url.scheme.as_str()).as_slice(), chars_of("https").as_slice()) {
        return false;
    }
    match &url.host {
        Some(h) => chars_eq(chars_of(h.as_str()).as_slice(), chars_of(host).as_slice()),
        None => false,
    }
}

fn trimmed_path_is(url: &WebUrl, expected: &str) -> (r: bool)
    ensures
        r == (trim_slashes(url@.path) == expected@),
{
    let path = chars_of(url.path.as_str());
    let slash = vec!['/'];
    assert(slash@ =~= seq!['/']);
    let e = trim_end_len(path.as_slice(), slash.as_slice());
    chars_eq(crate::text::slice_vec(path.as_slice(), 0, e).as_slice(), chars_of(expected).as_slice())
}

/// Whether `url` is the BOOTH top page entry.
pub fn is_booth_entry(url: &WebUrl) -> (r: bool)
    ensures
        r == booth_entry(url@),
{
    is_https_on(url, "booth.pm") && trimmed_path_is(url, "/ja") && url.query.is_none()
        && url.fragment.is_none()
}

/// Whether `url` is the BOOTH library entry.
pub fn is_booth_library_entry(url: &WebUrl) -> (r: bool)
    ensures
        r == library_entry(url@),
{
    is_https_on(url, "accounts.booth.pm") && trimmed_path_is(url, "/library") && url.query.is_none()
        && url.fragment.is_none()
}

/// Whether `url` is a BOOTH page.
pub fn is_booth_page(url: &WebUrl) -> (r: bool)
    ensures
        r == booth_page(url@),
{
    is_https_on(url, "booth.pm")
}

/// Whether `url` is a BOOTH library page.
pub fn is_booth_library_page(url: &WebUrl) -> (r: bool)
    ensures
        r == library_page(url@),
{
    is_https_on(url, "accounts.booth.pm") && (trimmed_path_is(url, "/library") || starts_with(
        chars_of(url.path.as_str()).as_slice(),
        chars_of("/library/").as_slice(),
    ))
}

/// The last BOOTH page and the last BOOTH library page that finished loading.
pub struct BrowserLocations {
    pub booth: Option<WebUrl>,
    pub library: Option<WebUrl>,
}

/// The view of an optional address.
pub open spec fn opt_url(o: Option<WebUrl>) -> Option<UrlView> {
    match o {
        Some(u) => Some(u@),
        None => None,
    }
}

/// What `remember` keeps: a library page replaces the library location, another BOOTH page
/// the BOOTH location, and any other page changes nothing.
pub open spec fn remembered(
    booth: Option<UrlView>,
    library: Option<UrlView>,
    u: UrlView,
) -> (Option<UrlView>, Option<UrlView>) {
    if library_page(u) {
        (booth, Some(u))
    } else if booth_page(u) {
        (Some(u), library)
    } else {
        (booth, library)
    }
}

/// Where a request to show `requested` leads: the library entry keeps a current library page
/// or returns to the remembered one; the BOOTH entry does the same for BOOTH pages; any other
/// address is shown as requested.
pub open spec fn destination_of(
    booth: Option<UrlView>,
    library: Option<UrlView>,
    current: Option<UrlView>,
    requested: UrlView,
) -> UrlView {
    if library_entry(requested) {
        match current {
            Some(c) if library_page(c) => c,
            _ => match library {
                Some(l) => l,
                None => requested,
            },
        }
    } else if booth_entry(requested) {
        match current {
            Some(c) if booth_page(c) => c,
            _ => match booth {
                Some(b) => b,
                None => requested,
            },
        }
    } else {
        requested
    }
}

impl BrowserLocations {
    /// No page has been remembered yet.
    pub fn new() -> (r: BrowserLocations)
        ensures
            r.booth is None,
            r.library is None,
    {
        BrowserLocations { booth: None, library: None }
    }

    /// Remembers a page that finished loading.
    pub fn remember(&mut self, url: &WebUrl)
        ensures
            (opt_url(final(self).booth), opt_url(final(self).library)) == remembered(
                opt_url(old(self).booth),
                opt_url(old(self).library),
                url@,
            ),
    {
        if is_booth_library_page(url) {
            self.library = Some(url.copy());
        } else if is_booth_page(url) {
            self.booth = Some(url.copy());
        }
    }

    /// Where the browser should go when `requested` is asked for while `current` is shown.
    pub fn destination(&self, current: Option<&WebUrl>, requested: &WebUrl) -> (r: WebUrl)
        ensures
            r@ == destination_of(
                opt_url(self.booth),
                opt_url(self.library),
                match current {
                    Some(c) => Some(c@),
                    None => None,
                },
                requested@,
            ),
    {
        if is_booth_library_entry(requested) {
            if let Some(c) = current {
                if is_booth_library_page(c) {
                    return c.copy();
                }
            }
            return match &self.library {
                Some(l) => l.copy(),
                None => requested.copy(),
            };
        }
        if is_booth_entry(requested) {
            if let Some(c) = current {
                if is_booth_page(c) {
                    return c.copy();
                }
            }
            return match &self.booth {
                Some(b) => b.copy(),
                None => requested.copy(),
            };
        }
        requested.copy()
    }
}

/// Remembering a library page and then asking for the library entry from an unrelated page
/// returns to that library page, and the BOOTH location is kept; remembering a BOOTH page
/// does the same for the BOOTH entry.
pub proof fn lemma_locations_restore(
    booth: Option<UrlView>,
    library: Option<UrlView>,
    page: UrlView,
    entry: UrlView,
)
    ensures
        library_page(page) && library_entry(entry) ==> ({
            let (b, l) = remembered(booth, library, page);
            &&& destination_of(b, l, None, entry) == page
            &&& b == booth
        }),
        booth_page(page) && !library_page(page) && booth_entry(entry) ==> ({
            let (b, l) = remembered(booth, library, page);
            &&& destination_of(b, l, None, entry) == page
            &&& l == library
        }),
{
    reveal_strlit("booth.pm");
    reveal_strlit("accounts.booth.pm");
    assert("booth.pm"@.len() != "accounts.booth.pm"@.len());
}

/// An address only reaches the display with its `page` parameter when it is a library page:
/// the first `page` pair whose value is one to six digits.
pub open spec fn first_page_value(values: Seq<Seq<char>>) -> Option<Seq<char>>
    decreases values.len(),
{
    if values.len() == 0 {
        None
    } else if values[0].len() > 0 && values[0].len() <= 6 && all_digits(values[0]) {
        Some(values[0])
    } else {
        first_page_value(values.drop_first())
    }
}

/// The address shown in the local toolbar: only for allowed pages; the `url` crate clears
/// credentials, query and fragment, and a numeric library `page` parameter is appended again.
pub open spec fn display_text(u: UrlView) -> Option<Seq<char>> {
    if !allowed_browser_url(u) {
        None
    } else {
        let page = if library_page(u) {
            first_page_value(values_of(query_pairs_of(u), "page"@))
        } else {
            None
        };
        match url_cleared_text(u) {
            None => None,
            Some(base) => match page {
                Some(p) => url_with_pair_text(base, "page"@, p),
                None => Some(base),
            },
        }
    }
}

/// The address to show in the local toolbar for a page of the embedded browser.
pub fn browser_url_for_display(url: &WebUrl) -> (r: Option<String>)
    ensures
        match r {
            Some(t) => display_text(url@) == Some(t@),
            None => display_text(url@) is None,
        },
{
    if !is_allowed_browser_url(url) {
        return None;
    }
    let page: Option<String> = if is_booth_library_page(url) {
        let pairs = url.query_pairs();
        let values = values_for(&pairs, "page");
        let mut found: Option<String> = None;
        let mut i: usize = 0;
        let ghost all = values.deep_view();
        assert(all.skip(0) =~= all);
        assert(all.skip(values.len() as int) =~= Seq::<Seq<char>>::empty());
        while i < values.len()
            invariant_except_break
                i <= values.len(),
                all == values.deep_view(),
                found is None,
                first_page_value(all) == first_page_value(all.skip(i as int)),
            ensures
                match found {
                    Some(f) => first_page_value(all) == Some(f@),
                    None => first_page_value(all) is None,
                },
            decreases values.len() - i,
        {
            let v = chars_of(values[i].as_str());
            assert(v@ == all[i as int]);
            assert(all.skip(i as int)[0] == all[i as int]);
            if v.len() > 0 && v.len() <= 6 && is_all_digits(v.as_slice()) {
                found = Some(values[i].clone());
                break;
            }
            assert(all.skip(i as int).drop_first() =~= all.skip(i as int + 1));
            i += 1;
        }
        found
    } else {
        None
    };
    let base = match cleared_with_url_crate(url) {
        Some(b) => b,
        None => return None,
    };
    match &page {
        Some(p) => append_pair_with_url_crate(base.as_str(), "page", p.as_str()),
        None => Some(base),
    }
}

/// A page that asks for a new window is opened in the embedded browser instead, when it is
/// an allowed address; any other target is refused.
pub fn new_window_navigation_target(url: WebUrl) -> (r: Option<WebUrl>)
    ensures
        match r {
            Some(t) => allowed_browser_url(url@) && t@ == url@,
            None => !allowed_browser_url(url@),
        },
{
    if is_allowed_browser_url(&url) {
        Some(url)
    } else {
        None
    }
}


/// How long a completed notification is replayed after page loads, in milliseconds.
pub const COMPLETED_NOTIFICATION_REPLAY_LIFETIME_MS: u64 = 6000;

/// How long a completed download keeps its folder action, in milliseconds.
pub const COMPLETED_ACTION_LIFETIME_MS: u64 = 30000;

/// How long an armed download intent stays valid, in milliseconds.
pub const DOWNLOAD_INTENT_LIFETIME_MS: u64 = 10000;

/// The most folder actions kept at once before they are all forgotten.
pub const MAX_COMPLETED_ACTIONS: usize = 64;

/// The state of one download notification and, once completed, until when it is replayed.
#[derive(Clone, Copy)]
pub struct StoredDownloadNotification {
    pub state: DownloadState,
    pub replay_until: Option<u64>,
}

/// The download notifications to replay after the embedded page reloads, by request
/// identifier.
pub struct ActiveDownloadNotifications {
    statuses: KeyedStore<StoredDownloadNotification>,
    clock: std::time::Instant,
}

/// `std::time::Instant`, carried through opaquely.
#[verifier::external_type_specification]
#[verifier::external_body]
pub struct ExInstant(std::time::Instant);

/// Calls `std::time::Instant::now`: the current instant of the monotonic clock. Nothing is
/// promised of it.
#[verifier::external_body]
fn instant_now() -> (r: std::time::Instant) {
    std::time::Instant::now()
}

/// Calls `Instant::elapsed`: the time since `start`. Nothing is promised of its length.
#[verifier::external_body]
fn instant_elapsed(start: &std::time::Instant) -> (r: std::time::Duration) {
    start.elapsed()
}

/// Calls `Duration::as_millis`: the whole milliseconds of `d`. Nothing is promised, since the
/// duration is opaque here.
#[verifier::external_body]
fn duration_millis(d: &std::time::Duration) -> (r: u128) {
    d.as_millis()
}

/// The milliseconds since `start`, capped so that a replay deadline still fits in a `u64`.
fn clock_millis(start: &std::time::Instant) -> (r: u64)
    ensures
        r <= u64::MAX - COMPLETED_NOTIFICATION_REPLAY_LIFETIME_MS,
{
    let elapsed = instant_elapsed(start);
    let ms = duration_millis(&elapsed);
    let cap: u64 = u64::MAX - COMPLETED_NOTIFICATION_REPLAY_LIFETIME_MS;
    if ms > cap as u128 {
        cap
    } else {
        ms as u64
    }
}

/// What one status event does to the notifications: events whose request identifier is not
/// a UUID are ignored; `Downloading` stores the state, `Completed` stores it until six
/// seconds after `now`, and `Failed` forgets the request.
pub open spec fn notifications_after(
    m: Map<Seq<char>, StoredDownloadNotification>,
    request_id: Seq<char>,
    state: DownloadState,
    now: u64,
) -> Map<Seq<char>, StoredDownloadNotification> {
    if uuid_canonical(request_id) is None {
        m
    } else {
        match state {
            DownloadState::Downloading => m.insert(
                request_id,
                StoredDownloadNotification { state, replay_until: None },
            ),
            DownloadState::Completed => m.insert(
                request_id,
                StoredDownloadNotification {
                    state,
                    replay_until: Some((now + COMPLETED_NOTIFICATION_REPLAY_LIFETIME_MS) as u64),
                },
            ),
            DownloadState::Failed => m.remove(request_id),
        }
    }
}

/// A notification is still replayed at `now` when it has no end or ends after `now`.
pub open spec fn still_replayed(n: StoredDownloadNotification, now: u64) -> bool {
    match n.replay_until {
        None => true,
        Some(until) => until > now,
    }
}

/// The notifications that are still replayed at `now`.
pub open spec fn live_notifications(
    m: Map<Seq<char>, StoredDownloadNotification>,
    now: u64,
) -> Map<Seq<char>, StoredDownloadNotification> {
    Map::new(|k: Seq<char>| m.contains_key(k) && still_replayed(m[k], now), |k: Seq<char>| m[k])
}

impl ActiveDownloadNotifications {
    /// The stored notifications by request identifier.
    pub closed spec fn view(&self) -> Map<Seq<char>, StoredDownloadNotification> {
        self.statuses@
    }

    /// The store keeps its key order.
    pub closed spec fn wf(&self) -> bool {
        self.statuses.wf()
    }

    /// No notification is stored.
    pub fn new() -> (r: ActiveDownloadNotifications)
        ensures
            r.wf(),
            r@ == Map::<Seq<char>, StoredDownloadNotification>::empty(),
    {
        ActiveDownloadNotifications { statuses: KeyedStore::new(), clock: instant_now() }
    }

    /// Records a status event now.
    pub fn update(&mut self, event: &DownloadStatusEvent)
        requires
            old(self).wf(),
        ensures
            final(self).wf(),
            exists|now: u64| final(self)@ == notifications_after(old(self)@, event.request_id@, event.state, now),
    {
        let now = clock_millis(&self.clock);
        self.update_at(event, now);
    }

    /// Forgets the notifications whose replay has ended and lists the others with their
    /// states, in increasing order of request identifier.
    pub fn snapshot(&mut self) -> (r: Vec<(String, DownloadState)>)
        requires
            old(self).wf(),
        ensures
            final(self).wf(),
            exists|now: u64| final(self)@ == live_notifications(old(self)@, now),
            forall|i: int, j: int|
                0 <= i < j < r.len() ==> crate::text::seq_lt(#[trigger] r@[i].0@, #[trigger] r@[j].0@),
            forall|i: int|
                0 <= i < r.len() ==> final(self)@.contains_key((#[trigger] r@[i]).0@)
                    && final(self)@[r@[i].0@].state == r@[i].1,
            forall|k: Seq<char>|
                final(self)@.contains_key(k) ==> exists|i: int|
                    0 <= i < r.len() && (#[trigger] r@[i]).0@ == k,
    {
        let now = clock_millis(&self.clock);
        self.snapshot_at(now)
    }

    /// Records a status event at time `now` (milliseconds).
    pub fn update_at(&mut self, event: &DownloadStatusEvent, now: u64)
        requires
            old(self).wf(),
            event.state == DownloadState::Completed ==> now <= u64::MAX
                - COMPLETED_NOTIFICATION_REPLAY_LIFETIME_MS,
        ensures
            final(self).wf(),
            final(self)@ == notifications_after(old(self)@, event.request_id@, event.state, now),
    {
        if canonical_uuid(event.request_id.as_str()).is_none() {
            return;
        }
        match event.state {
            DownloadState::Downloading => {
                self.statuses.insert(
                    event.request_id.clone(),
                    StoredDownloadNotification { state: event.state, replay_until: None },
                );
            },
            DownloadState::Completed => {
                self.statuses.insert(
                    event.request_id.clone(),
                    StoredDownloadNotification {
                        state: event.state,
                        replay_until: Some(now + COMPLETED_NOTIFICATION_REPLAY_LIFETIME_MS),
                    },
                );
            },
            DownloadState::Failed => {
                let _ = self.statuses.remove(event.request_id.as_str());
            },
        }
    }

    /// Forgets the notifications whose replay ended by `now` and lists the others with their
    /// states, in increasing order of request identifier.
    pub fn snapshot_at(&mut self, now: u64) -> (r: Vec<(String, DownloadState)>)
        requires
            old(self).wf(),
        ensures
            final(self).wf(),
            final(self)@ == live_notifications(old(self)@, now),
            forall|i: int, j: int|
                0 <= i < j < r.len() ==> crate::text::seq_lt(#[trigger] r@[i].0@, #[trigger] r@[j].0@),
            forall|i: int|
                0 <= i < r.len() ==> final(self)@.contains_key((#[trigger] r@[i]).0@)
                    && final(self)@[r@[i].0@].state == r@[i].1,
            forall|k: Seq<char>|
                final(self)@.contains_key(k) ==> exists|i: int|
                    0 <= i < r.len() && (#[trigger] r@[i]).0@ == k,
    {
        let ghost m = self.statuses@;
        let ghost o = self.statuses.ordered();
        proof {
            self.statuses.lemma_ordered();
        }
        let mut kept: KeyedStore<StoredDownloadNotification> = KeyedStore::new();
        let n = self.statuses.len();
        let mut i: usize = 0;
        while i < n
            invariant
                self.statuses.wf(),
                self.statuses@ == m,
                self.statuses.ordered() == o,
                n == o.len(),
                i <= n,
                kept.wf(),
                forall|k: Seq<char>|
                    #[trigger] kept@.contains_key(k) <==> (exists|j: int|
                        0 <= j < i && (#[trigger] o[j]).0 == k && still_replayed(o[j].1, now)),
                forall|k: Seq<char>| #[trigger] kept@.contains_key(k) ==> kept@[k] == m[k],
                forall|j: int|
                    0 <= j < o.len() ==> m.contains_key((#[trigger] o[j]).0) && m[o[j].0] == o[j].1,
            decreases n - i,
        {
            let (key, value) = self.statuses.entry(i);
            let live = match value.replay_until {
                None => true,
                Some(until) => until > now,
            };
            if live {
                let ghost before = kept@;
                kept.insert(key.clone(), *value);
                assert forall|k: Seq<char>|
                    #[trigger] kept@.contains_key(k) <==> (exists|j: int|
                        0 <= j < i + 1 && (#[trigger] o[j]).0 == k && still_replayed(o[j].1, now)) by {
                    if k == key@ {
                        assert(o[i as int].0 == k);
                    } else if kept@.contains_key(k) {
                        assert(before.contains_key(k));
                    } else if exists|j: int|
                        0 <= j < i + 1 && (#[trigger] o[j]).0 == k && still_replayed(o[j].1, now) {
                        let j = choose|j: int|
                            0 <= j < i + 1 && (#[trigger] o[j]).0 == k && still_replayed(o[j].1, now);
                        assert(j < i);
                        assert(before.contains_key(k));
                    }
                }
            } else {
                assert forall|k: Seq<char>|
                    #[trigger] kept@.contains_key(k) <==> (exists|j: int|
                        0 <= j < i + 1 && (#[trigger] o[j]).0 == k && still_replayed(o[j].1, now)) by {
                    if exists|j: int|
                        0 <= j < i + 1 && (#[trigger] o[j]).0 == k && still_replayed(o[j].1, now) {
                        let j = choose|j: int|
                            0 <= j < i + 1 && (#[trigger] o[j]).0 == k && still_replayed(o[j].1, now);
                        if j == i {
                            assert(o[j].1 == o[i as int].1);
                        }
                    }
                }
            }
            i += 1;
        }
        proof {
            let live = live_notifications(m, now);
            assert forall|k: Seq<char>| #[trigger] kept@.contains_key(k) <==> live.contains_key(k) by {
                if m.contains_key(k) {
                    let j = choose|j: int| 0 <= j < o.len() && (#[trigger] o[j]).0 == k;
                    assert(m[k] == o[j].1);
                }
            }
            assert(kept@ =~= live);
        }
        self.statuses = kept;
        proof {
            self.statuses.lemma_ordered();
        }
        let ghost p = self.statuses.ordered();
        let mut out: Vec<(String, DownloadState)> = Vec::new();
        let total = self.statuses.len();
        let mut j: usize = 0;
        while j < total
            invariant
                self.statuses.wf(),
                self.statuses.ordered() == p,
                total == p.len(),
                j <= total,
                out.len() == j,
                forall|t: int| 0 <= t < j ==> (#[trigger] out@[t]).0@ == p[t].0 && out@[t].1 == p[t].1.state,
            decreases total - j,
        {
            let (key, value) = self.statuses.entry(j);
            out.push((key.clone(), value.state));
            j += 1;
        }
        proof {
            assert forall|k: Seq<char>| self.statuses@.contains_key(k) implies exists|t: int|
                0 <= t < out.len() && (#[trigger] out@[t]).0@ == k by {
                let t = choose|t: int| 0 <= t < p.len() && (#[trigger] p[t]).0 == k;
                assert(out@[t].0@ == k);
            }
        }
        out
    }
}

/// The item of a completed download and when its folder action was created.
#[derive(Clone, Copy)]
pub struct CompletedDownloadAction {
    pub item_id: i64,
    pub created_at: u64,
}

/// `now - then`, or zero when `then` is later, as `Instant::duration_since` measures it.
pub open spec fn elapsed_ms(now: u64, then: u64) -> int {
    if now >= then {
        now - then
    } else {
        0
    }
}

/// A folder action is still usable within thirty seconds of its creation.
pub open spec fn action_fresh(a: CompletedDownloadAction, now: u64) -> bool {
    elapsed_ms(now, a.created_at) <= COMPLETED_ACTION_LIFETIME_MS
}

/// The actions that are still fresh at `now`.
pub open spec fn fresh_actions(
    m: Map<Seq<char>, CompletedDownloadAction>,
    now: u64,
) -> Map<Seq<char>, CompletedDownloadAction> {
    Map::new(|k: Seq<char>| m.contains_key(k) && action_fresh(m[k], now), |k: Seq<char>| m[k])
}

/// What `remember` keeps: nothing changes for a non-positive item or a request identifier
/// that is not a UUID; otherwise stale actions are dropped, all are dropped when 64 or more
/// remain, and the new action is stored.
pub open spec fn actions_after_remember(
    m: Map<Seq<char>, CompletedDownloadAction>,
    request_id: Seq<char>,
    item_id: i64,
    now: u64,
) -> Map<Seq<char>, CompletedDownloadAction> {
    if item_id <= 0 || uuid_canonical(request_id) is None {
        m
    } else {
        let fresh = fresh_actions(m, now);
        let kept = if fresh.len() >= MAX_COMPLETED_ACTIONS {
            Map::empty()
        } else {
            fresh
        };
        kept.insert(request_id, CompletedDownloadAction { item_id, created_at: now })
    }
}

/// The one-time folder actions of completed downloads, by request identifier.
pub struct CompletedDownloadActions {
    actions: KeyedStore<CompletedDownloadAction>,
}

impl CompletedDownloadActions {
    /// The stored actions by request identifier.
    pub closed spec fn view(&self) -> Map<Seq<char>, CompletedDownloadAction> {
        self.actions@
    }

    /// The store keeps its key order.
    pub closed spec fn wf(&self) -> bool {
        self.actions.wf()
    }

    /// No action is stored.
    pub fn new() -> (r: CompletedDownloadActions)
        ensures
            r.wf(),
            r@ == Map::<Seq<char>, CompletedDownloadAction>::empty(),
    {
        CompletedDownloadActions { actions: KeyedStore::new() }
    }

    /// Remembers the folder action of a completed download at time `now`.
    pub fn remember(&mut self, request_id: &str, item_id: i64, now: u64)
        requires
            old(self).wf(),
        ensures
            final(self).wf(),
            final(self)@ == actions_after_remember(old(self)@, request_id@, item_id, now),
    {
        if item_id <= 0 || canonical_uuid(request_id).is_none() {
            return;
        }
        let ghost m = self.actions@;
        let ghost o = self.actions.ordered();
        proof {
            self.actions.lemma_ordered();
        }
        let mut kept: KeyedStore<CompletedDownloadAction> = KeyedStore::new();
        let n = self.actions.len();
        let mut i: usize = 0;
        while i < n
            invariant
                self.actions.wf(),
                self.actions@ == m,
                self.actions.ordered() == o,
                n == o.len(),
                i <= n,
                kept.wf(),
                forall|k: Seq<char>|
                    #[trigger] kept@.contains_key(k) <==> (exists|j: int|
                        0 <= j < i && (#[trigger] o[j]).0 == k && action_fresh(o[j].1, now)),
                forall|k: Seq<char>| #[trigger] kept@.contains_key(k) ==> kept@[k] == m[k],
                forall|j: int|
                    0 <= j < o.len() ==> m.contains_key((#[trigger] o[j]).0) && m[o[j].0] == o[j].1,
            decreases n - i,
        {
            let (key, value) = self.actions.entry(i);
            let elapsed = if now >= value.created_at {
                now - value.created_at
            } else {
                0
            };
            if elapsed <= COMPLETED_ACTION_LIFETIME_MS {
                let ghost before = kept@;
                kept.insert(key.clone(), *value);
                assert forall|k: Seq<char>|
                    #[trigger] kept@.contains_key(k) <==> (exists|j: int|
                        0 <= j < i + 1 && (#[trigger] o[j]).0 == k && action_fresh(o[j].1, now)) by {
                    if k == key@ {
                        assert(o[i as int].0 == k);
                    } else if kept@.contains_key(k) {
                        assert(before.contains_key(k));
                    } else if exists|j: int|
                        0 <= j < i + 1 && (#[trigger] o[j]).0 == k && action_fresh(o[j].1, now) {
                        let j = choose|j: int|
                            0 <= j < i + 1 && (#[trigger] o[j]).0 == k && action_fresh(o[j].1, now);
                        assert(j < i);
                        assert(before.contains_key(k));
                    }
                }
            } else {
                assert forall|k: Seq<char>|
                    #[trigger] kept@.contains_key(k) <==> (exists|j: int|
                        0 <= j < i + 1 && (#[trigger] o[j]).0 == k && action_fresh(o[j].1, now)) by {
                    if exists|j: int|
                        0 <= j < i + 1 && (#[trigger] o[j]).0 == k && action_fresh(o[j].1, now) {
                        let j = choose|j: int|
                            0 <= j < i + 1 && (#[trigger] o[j]).0 == k && action_fresh(o[j].1, now);
                        if j == i {
                            assert(o[j].1 == o[i as int].1);
                        }
                    }
                }
            }
            i += 1;
        }
        proof {
            let fresh = fresh_actions(m, now);
            assert forall|k: Seq<char>| #[trigger] kept@.contains_key(k) <==> fresh.contains_key(k) by {
                if m.contains_key(k) {
                    let j = choose|j: int| 0 <= j < o.len() && (#[trigger] o[j]).0 == k;
                    assert(m[k] == o[j].1);
                }
            }
            assert(kept@ =~= fresh);
        }
        if kept.len() >= MAX_COMPLETED_ACTIONS {
            kept.clear();
        }
        kept.insert(String::from_str(request_id), CompletedDownloadAction { item_id, created_at: now });
        self.actions = kept;
    }

    /// Takes the action of `request_id`: it is forgotten in any case, and its item is returned
    /// when the action is still fresh at `now`.
    pub fn take(&mut self, request_id: &str, now: u64) -> (r: Option<i64>)
        requires
            old(self).wf(),
        ensures
            final(self).wf(),
            final(self)@ == old(self)@.remove(request_id@),
            r == (if old(self)@.contains_key(request_id@) && action_fresh(
                old(self)@[request_id@],
                now,
            ) {
                Some(old(self)@[request_id@].item_id)
            } else {
                None
            }),
    {
        match self.actions.remove(request_id) {
            None => None,
            Some(action) => {
                let elapsed = if now >= action.created_at {
                    now - action.created_at
                } else {
                    0
                };
                if elapsed <= COMPLETED_ACTION_LIFETIME_MS {
                    Some(action.item_id)
                } else {
                    None
                }
            },
        }
    }
}


/// An intent is still valid within ten seconds of being armed.
pub open spec fn intent_fresh(created_at: u64, now: u64) -> bool {
    elapsed_ms(now, created_at) <= DOWNLOAD_INTENT_LIFETIME_MS
}

/// A browser download waiting to finish: the address it came from and what the caller
/// keeps with it.
pub struct PendingNativeDownload<P> {
    pub source_url: String,
    pub payload: P,
}

/// The keys whose pending download came from `url`, in key order.
pub open spec fn keys_from<P>(o: Seq<(Seq<char>, PendingNativeDownload<P>)>, url: Seq<char>) -> Seq<
    Seq<char>,
>
    decreases o.len(),
{
    if o.len() == 0 {
        Seq::empty()
    } else {
        let rest = keys_from(o.drop_last(), url);
        if o.last().1.source_url@ == url {
            rest.push(o.last().0)
        } else {
            rest
        }
    }
}

/// The armed download intent and the browser downloads in progress, by staging path.
pub struct NativeDownloads<P> {
    intent: Option<NativeDownloadIntent>,
    pending: KeyedStore<PendingNativeDownload<P>>,
}

impl<P> NativeDownloads<P> {
    /// The armed intent, if any.
    pub closed spec fn intent(&self) -> Option<NativeDownloadIntent> {
        self.intent
    }

    /// The pending downloads by staging path.
    pub closed spec fn pending(&self) -> Map<Seq<char>, PendingNativeDownload<P>> {
        self.pending@
    }

    /// The pending downloads in key order.
    pub closed spec fn pending_ordered(&self) -> Seq<(Seq<char>, PendingNativeDownload<P>)> {
        self.pending.ordered()
    }

    /// The store keeps its key order.
    pub closed spec fn wf(&self) -> bool {
        self.pending.wf()
    }

    /// No intent and no pending download.
    pub fn new() -> (r: NativeDownloads<P>)
        ensures
            r.wf(),
            r.intent() is None,
            r.pending() == Map::<Seq<char>, PendingNativeDownload<P>>::empty(),
    {
        NativeDownloads { intent: None, pending: KeyedStore::new() }
    }

    /// Arms `intent` unless a previous intent is still valid at `now`.
    pub fn arm(&mut self, intent: NativeDownloadIntent, now: u64) -> (r: bool)
        requires
            old(self).wf(),
        ensures
            final(self).wf(),
            final(self).pending() == old(self).pending(),
            final(self).pending_ordered() == old(self).pending_ordered(),
            r == !(old(self).intent() matches Some(c) && intent_fresh(c.created_at, now)),
            r ==> final(self).intent() == Some(intent),
            !r ==> final(self).intent() == old(self).intent(),
    {
        if let Some(current) = &self.intent {
            let elapsed = if now >= current.created_at {
                now - current.created_at
            } else {
                0
            };
            if elapsed <= DOWNLOAD_INTENT_LIFETIME_MS {
                return false;
            }
        }
        self.intent = Some(intent);
        true
    }

    /// Takes the armed intent; it is returned only when still valid at `now`, and cleared in
    /// any case.
    pub fn take_intent(&mut self, now: u64) -> (r: Option<NativeDownloadIntent>)
        requires
            old(self).wf(),
        ensures
            final(self).wf(),
            final(self).intent() is None,
            final(self).pending() == old(self).pending(),
            final(self).pending_ordered() == old(self).pending_ordered(),
            r == (match old(self).intent() {
                Some(i) => if intent_fresh(i.created_at, now) {
                    Some(i)
                } else {
                    None
                },
                None => None,
            }),
    {
        match self.intent.take() {
            None => None,
            Some(intent) => {
                let elapsed = if now >= intent.created_at {
                    now - intent.created_at
                } else {
                    0
                };
                if elapsed <= DOWNLOAD_INTENT_LIFETIME_MS {
                    Some(intent)
                } else {
                    None
                }
            },
        }
    }

    /// Records a pending download under its staging path, unless the path is already taken.
    pub fn insert_pending(&mut self, path: String, pending: PendingNativeDownload<P>) -> (r: bool)
        requires
            old(self).wf(),
        ensures
            final(self).wf(),
            final(self).intent() == old(self).intent(),
            r == !old(self).pending().contains_key(path@),
            r ==> final(self).pending() == old(self).pending().insert(path@, pending),
            !r ==> final(self).pending() == old(self).pending(),
    {
        if self.pending.contains(path.as_str()) {
            return false;
        }
        self.pending.insert(path, pending);
        true
    }

    /// Takes the pending download that finished: by its path when that path is pending,
    /// otherwise the only one that came from `url`; none when no single one matches.
    pub fn take_pending(&mut self, path: Option<&str>, url: &str) -> (r: Option<
        PendingNativeDownload<P>,
    >)
        requires
            old(self).wf(),
        ensures
            final(self).wf(),
            final(self).intent() == old(self).intent(),
            match path {
                Some(p) if old(self).pending().contains_key(p@) => r == Some(old(self).pending()[p@])
                    && final(self).pending() == old(self).pending().remove(p@),
                _ => {
                    let from = keys_from(old(self).pending_ordered(), url@);
                    if from.len() == 1 {
                        old(self).pending().contains_key(from[0]) && r == Some(
                            old(self).pending()[from[0]],
                        ) && final(self).pending() == old(self).pending().remove(from[0])
                    } else {
                        r is None && final(self).pending() == old(self).pending()
                    }
                },
            },
    {
        if let Some(p) = path {
            if self.pending.contains(p) {
                return self.pending.remove(p);
            }
        }
        let ghost o = self.pending.ordered();
        proof {
            self.pending.lemma_ordered();
        }
        let u = chars_of(url);
        let n = self.pending.len();
        let mut count: usize = 0;
        let mut found: usize = 0;
        let mut i: usize = 0;
        assert(o.take(0) =~= Seq::<(Seq<char>, PendingNativeDownload<P>)>::empty());
        while i < n
            invariant
                self.pending.wf(),
                self.pending.ordered() == o,
                n == o.len(),
                i <= n,
                u@ == url@,
                count == keys_from(o.take(i as int), url@).len(),
                count <= i,
                count >= 1 ==> found < i && keys_from(o.take(i as int), url@)[0] == o[found as int].0,
            decreases n - i,
        {
            let (_, entry) = self.pending.entry(i);
            let ghost t = o.take(i as int + 1);
            assert(t.drop_last() =~= o.take(i as int));
            if chars_eq(chars_of(entry.source_url.as_str()).as_slice(), u.as_slice()) {
                if count == 0 {
                    found = i;
                }
                count += 1;
            }
            i += 1;
        }
        assert(o.take(n as int) =~= o);
        if count != 1 {
            return None;
        }
        let removed = self.pending.remove_entry(found);
        Some(removed)
    }
}

/// The reload, back and forward commands of the local toolbar.
#[derive(Clone, Copy, PartialEq, Eq, Debug, Structural)]
pub enum BrowserNavigationAction {
    Back,
    Forward,
    Reload,
}

impl BrowserNavigationAction {
    /// The fixed script that performs the action in the embedded browser.
    pub fn script(self) -> (r: &'static str)
        ensures
            r@ == match self {
                BrowserNavigationAction::Back => "window.history.back()"@,
                BrowserNavigationAction::Forward => "window.history.forward()"@,
                BrowserNavigationAction::Reload => "window.location.reload()"@,
            },
    {
        match self {
            BrowserNavigationAction::Back => "window.history.back()",
            BrowserNavigationAction::Forward => "window.history.forward()",
            BrowserNavigationAction::Reload => "window.location.reload()",
        }
    }
}


/// What a navigation of the embedded browser leads to.
pub enum NavigationDecision {
    /// A folder action for the completed download with this request identifier; the
    /// navigation itself is cancelled.
    OpenFolder(String),
    /// A download intent link; the navigation is cancelled, the intent (when valid) is
    /// armed, and the request identifier (when readable) is acknowledged.
    DownloadIntent { request_id: Option<String>, intent: Option<NativeDownloadIntent> },
    /// Another address of the application's own scheme; the navigation is cancelled.
    IgnoreLocalAction,
    /// An allowed page; the navigation proceeds.
    Allow,
    /// Any other page; the navigation is cancelled.
    Deny,
}

/// Decides what a navigation of the embedded browser to `url` leads to, at `now`.
pub fn navigation_decision(url: &WebUrl, now: u64) -> (r: NavigationDecision)
    ensures
        url@.scheme == "booth-shelf"@ && folder_action_request_id(url@) is Some ==> (
        r matches NavigationDecision::OpenFolder(id) && folder_action_request_id(url@) == Some(
            id@,
        )),
        url@.scheme == "booth-shelf"@ && folder_action_request_id(url@) is None && url@.host
            == Some("download-intent"@) ==> (r matches NavigationDecision::DownloadIntent {
            request_id,
            intent,
        } && opt_view(request_id) == intent_request_id(url@) && match (intent, intent_fields(url@)) {
            (Some(i), Some(f)) => i.request_id@ == f.request_id && i.item_id == f.item_id
                && i.variation_id == f.variation_id && i.downloadable_id == f.downloadable_id
                && i.created_at == now,
            (None, None) => true,
            _ => false,
        }),
        url@.scheme == "booth-shelf"@ && folder_action_request_id(url@) is None && url@.host
            != Some("download-intent"@) ==> r is IgnoreLocalAction,
        url@.scheme != "booth-shelf"@ && allowed_browser_url(url@) ==> r is Allow,
        url@.scheme != "booth-shelf"@ && !allowed_browser_url(url@) ==> r is Deny,
{
    if chars_eq(chars_of(url.scheme.as_str()).as_slice(), chars_of("booth-shelf").as_slice()) {
        match open_folder_request_id(url) {
            Some(id) => NavigationDecision::OpenFolder(id),
            None => {
                let intent_host = match &url.host {
                    Some(h) => chars_eq(
                        chars_of(h.as_str()).as_slice(),
                        chars_of("download-intent").as_slice(),
                    ),
                    None => false,
                };
                if intent_host {
                    let request_id = download_intent_request_id(url);
                    let intent = download_intent_from_url(url, now);
                    NavigationDecision::DownloadIntent { request_id, intent }
                } else {
                    NavigationDecision::IgnoreLocalAction
                }
            },
        }
    } else if is_allowed_browser_url(url) {
        NavigationDecision::Allow
    } else {
        NavigationDecision::Deny
    }
}

/// The download request for a transfer the embedded browser started under the armed
/// `intent`: the address must belong to the intent, and the file name the browser chose must
/// be acceptable to `safe_filename`.
pub fn native_download_request(
    intent: &NativeDownloadIntent,
    url: &WebUrl,
    file_name: Option<&str>,
) -> (r: Result<DownloadRequest, AppError>)
    ensures
        !download_url_matches(url@, intent.variation_id, intent.downloadable_id) ==> (
        r matches Err(e) && e is RejectedDownloadUrl),
        download_url_matches(url@, intent.variation_id, intent.downloadable_id) && match file_name {
            Some(f) => safe_filename_result(f@) is None,
            None => true,
        } ==> (r matches Err(e) && e is UnsafeFilename),
        download_url_matches(url@, intent.variation_id, intent.downloadable_id) && (
        file_name matches Some(f) && safe_filename_result(f@) is Some) ==> (r matches Ok(req) && req@
            == (DownloadRequestView {
            request_id: intent.request_id@,
            item_id: intent.item_id,
            variation_id: intent.variation_id,
            downloadable_id: Some(intent.downloadable_id),
            product_name: None,
            shop_name: None,
            filename: safe_filename_result(file_name->Some_0@)->Some_0,
            signed_url: None,
        })),
{
    if !native_download_url_matches(url, intent) {
        return Err(AppError::RejectedDownloadUrl);
    }
    let name = match file_name {
        Some(f) => match safe_filename(f) {
            Ok(n) => n,
            Err(e) => {
                return Err(e);
            },
        },
        None => {
            return Err(AppError::UnsafeFilename);
        },
    };
    Ok(
        DownloadRequest {
            request_id: intent.request_id.clone(),
            item_id: intent.item_id,
            variation_id: intent.variation_id,
            downloadable_id: Some(intent.downloadable_id),
            product_name: None,
            shop_name: None,
            filename: name,
            signed_url: None,
        },
    )
}


/// A failed download's notification is forgotten at once, whatever the time: every other
/// notification stays as it was, and no later snapshot lists the request.
pub proof fn lemma_failed_request_is_forgotten(
    m: Map<Seq<char>, StoredDownloadNotification>,
    request_id: Seq<char>,
    now: u64,
    later: u64,
)
    requires
        uuid_canonical(request_id) is Some,
    ensures
        notifications_after(m, request_id, DownloadState::Failed, now) == m.remove(request_id),
        !live_notifications(notifications_after(m, request_id, DownloadState::Failed, now), later)
            .contains_key(request_id),
{
}

/// A completed download's notification is replayed for six seconds and no longer.
pub proof fn lemma_notification_lifetimes(
    m: Map<Seq<char>, StoredDownloadNotification>,
    request_id: Seq<char>,
    now: u64,
)
    requires
        uuid_canonical(request_id) is Some,
        now <= u64::MAX - COMPLETED_NOTIFICATION_REPLAY_LIFETIME_MS,
    ensures
        still_replayed(
            notifications_after(m, request_id, DownloadState::Completed, now)[request_id],
            (now + COMPLETED_NOTIFICATION_REPLAY_LIFETIME_MS - 1) as u64,
        ),
        !still_replayed(
            notifications_after(m, request_id, DownloadState::Completed, now)[request_id],
            (now + COMPLETED_NOTIFICATION_REPLAY_LIFETIME_MS) as u64,
        ),
{
}

/// A folder action opens at most once: after it is taken it is gone, whatever the time.
pub proof fn lemma_folder_action_is_one_time(m: Map<Seq<char>, CompletedDownloadAction>, request_id: Seq<char>)
    ensures
        !m.remove(request_id).contains_key(request_id),
{
}

/// A folder action or a download intent older than its lifetime is no longer honoured.
pub proof fn lemma_actions_and_intents_expire(a: CompletedDownloadAction, created_at: u64, now: u64)
    ensures
        now > a.created_at + COMPLETED_ACTION_LIFETIME_MS ==> !action_fresh(a, now),
        now > created_at + DOWNLOAD_INTENT_LIFETIME_MS ==> !intent_fresh(created_at, now),
{
}


/// Pages outside BOOTH (such as pixiv's login) are never remembered, and an address that is
/// neither the BOOTH entry nor the library entry is always shown as requested.
pub proof fn lemma_locations_ignore_other_pages_and_honor_explicit_urls(
    booth: Option<UrlView>,
    library: Option<UrlView>,
    current: Option<UrlView>,
    page: UrlView,
    requested: UrlView,
)
    ensures
        !booth_page(page) && !library_page(page) ==> remembered(booth, library, page) == (booth, library),
        !booth_entry(requested) && !library_entry(requested) ==> destination_of(
            booth,
            library,
            current,
            requested,
        ) == requested,
{
}

/// A value of `key` in `pairs` is among the values `values_of` lists.
proof fn lemma_value_listed(pairs: Seq<(Seq<char>, Seq<char>)>, key: Seq<char>, i: int)
    requires
        0 <= i < pairs.len(),
        pairs[i].0 == key,
    ensures
        values_of(pairs, key).contains(pairs[i].1),
    decreases pairs.len(),
{
    if i == pairs.len() - 1 {
        let rest = values_of(pairs.drop_last(), key);
        assert(values_of(pairs, key) == rest.push(pairs[i].1));
        assert(rest.push(pairs[i].1)[rest.len() as int] == pairs[i].1);
    } else {
        assert(pairs.drop_last()[i] == pairs[i]);
        lemma_value_listed(pairs.drop_last(), key, i);
        let rest = values_of(pairs.drop_last(), key);
        let k = choose|k: int| 0 <= k < rest.len() && rest[k] == pairs[i].1;
        if pairs.last().0 == key {
            assert(rest.push(pairs.last().1)[k] == pairs[i].1);
        }
    }
}

/// When `key` has exactly one value in `pairs`, every pair named `key` carries it.
proof fn lemma_unique_value_is_the_value(pairs: Seq<(Seq<char>, Seq<char>)>, key: Seq<char>, i: int)
    requires
        0 <= i < pairs.len(),
        pairs[i].0 == key,
    ensures
        unique_value(pairs, key) is Some ==> unique_value(pairs, key) == Some(pairs[i].1),
{
    lemma_value_listed(pairs, key, i);
}

/// One of the identifier fields of a download intent.
pub open spec fn intent_id_field(key: Seq<char>) -> bool {
    key == "item_id"@ || key == "variation_id"@ || key == "downloadable_id"@
}

/// A download intent address altered in any of these ways arms nothing: another scheme,
/// host, path, port, credentials or a fragment; other than four query pairs; a `request_id`
/// that is not a UUID; an item, variation or downloadable identifier that is not a positive
/// number.
pub proof fn lemma_altered_intent_is_refused(u: UrlView)
    ensures
        !local_action(u, "download-intent"@) ==> intent_fields(u) is None,
        query_pairs_of(u).len() != 4 ==> intent_fields(u) is None,
        (exists|i: int|
            0 <= i < query_pairs_of(u).len() && (#[trigger] query_pairs_of(u)[i]).0 == "request_id"@
                && uuid_canonical(query_pairs_of(u)[i].1) is None) ==> intent_fields(u) is None,
        (exists|i: int|
            0 <= i < query_pairs_of(u).len() && intent_id_field((#[trigger] query_pairs_of(u)[i]).0)
                && positive_id(Some(query_pairs_of(u)[i].1)) is None) ==> intent_fields(u) is None,
{
    let pairs = query_pairs_of(u);
    if exists|i: int|
        0 <= i < pairs.len() && (#[trigger] pairs[i]).0 == "request_id"@ && uuid_canonical(
            pairs[i].1,
        ) is None {
        let i = choose|i: int|
            0 <= i < pairs.len() && (#[trigger] pairs[i]).0 == "request_id"@ && uuid_canonical(
                pairs[i].1,
            ) is None;
        lemma_unique_value_is_the_value(pairs, "request_id"@, i);
    }
    if exists|i: int|
        0 <= i < pairs.len() && intent_id_field((#[trigger] pairs[i]).0) && positive_id(
            Some(pairs[i].1),
        ) is None {
        let i = choose|i: int|
            0 <= i < pairs.len() && intent_id_field((#[trigger] pairs[i]).0) && positive_id(
                Some(pairs[i].1),
            ) is None;
        lemma_unique_value_is_the_value(pairs, pairs[i].0, i);
    }
}

/// Remembering a folder action stores it for its request, and keeps every other action that
/// is still fresh while fewer than 64 fresh actions are stored (an earlier download's folder
/// action stays usable); nothing stale and nothing else is kept. A non-positive item or a
/// request identifier that is not a UUID changes nothing.
pub proof fn lemma_remember_keeps_fresh_actions(
    m: Map<Seq<char>, CompletedDownloadAction>,
    request_id: Seq<char>,
    item_id: i64,
    now: u64,
)
    ensures
        ({
            let r = actions_after_remember(m, request_id, item_id, now);
            &&& item_id <= 0 || uuid_canonical(request_id) is None ==> r == m
            &&& item_id > 0 && uuid_canonical(request_id) is Some ==> {
                &&& r.contains_key(request_id)
                &&& r[request_id] == CompletedDownloadAction { item_id, created_at: now }
                &&& forall|k: Seq<char>|
                    #[trigger] m.contains_key(k) && k != request_id && action_fresh(m[k], now)
                        && fresh_actions(m, now).len() < MAX_COMPLETED_ACTIONS ==> r.contains_key(k)
                        && r[k] == m[k]
                &&& forall|k: Seq<char>|
                    #[trigger] r.contains_key(k) && k != request_id ==> m.contains_key(k)
                        && action_fresh(m[k], now) && r[k] == m[k]
            }
        }),
{
}

} // verus!
