//! Parsing of `booth-library-manager://` download links.
use vstd::prelude::*;
use vstd::utf8::encode_utf8;
use crate::error::{AppError, ErrorView};
use crate::model::DownloadRequest;
use crate::security::{
    allowed_download_url, is_allowed_download_url, safe_filename, safe_filename_result,
};
use crate::text::{
    all_digits, chars_eq, chars_eq_ignore_ascii_case, chars_of, decimal_value,
    eq_ignore_ascii_case, has_prefix, parse_digits_i64, split_by, split_in, string_of,
};
use crate::weburl::{
    new_uuid, opt_view, percent_decode_utf8, percent_decoded_text, query_pairs_of,
    url_parse_result, uuid_canonical, UrlView, WebUrl,
};

verus! {

/// The longest link, in bytes, that is accepted.
pub const MAX_DEEPLINK_LENGTH: usize = 32768;

/// The most files one link may request.
pub const MAX_DOWNLOADS_PER_LINK: usize = 32;

/// The link uses the `booth-library-manager` scheme, in any ASCII case.
pub open spec fn library_manager_link(u: UrlView) -> bool {
    eq_ignore_ascii_case(u.scheme, "booth-library-manager"@)
}

/// Whether `url` is a BOOTH Library Manager link.
pub fn is_booth_library_manager_link(url: &WebUrl) -> (r: bool)
    ensures
        r == library_manager_link(url@),
{
    let scheme = chars_of(url.scheme.as_str());
    let expected = chars_of("booth-library-manager");
    chars_eq_ignore_ascii_case(scheme.as_slice(), expected.as_slice())
}

/// The query fields of a link read so far: the single-valued fields and the `dlurls[]` list.
pub struct LinkFields {
    pub item_id: Option<Seq<char>>,
    pub variation_id: Option<Seq<char>>,
    pub order_id: Option<Seq<char>>,
    pub dlurl: Option<Seq<char>>,
    pub client: Option<Seq<char>>,
    pub downloadable_filename: Option<Seq<char>>,
    pub download_urls: Seq<Seq<char>>,
}

/// The outcome of reading the query fields.
pub enum FieldScan {
    Fields(LinkFields),
    Repeated,
    Unknown,
}

/// No field read yet.
pub open spec fn no_fields() -> LinkFields {
    LinkFields {
        item_id: None,
        variation_id: None,
        order_id: None,
        dlurl: None,
        client: None,
        downloadable_filename: None,
        download_urls: Seq::empty(),
    }
}

/// Reads one field: `dlurls[]` appends, a single-valued field may be set once, and any other
/// name is refused.
pub open spec fn scan_step(f: LinkFields, key: Seq<char>, value: Seq<char>) -> FieldScan {
    if key == "dlurls[]"@ {
        FieldScan::Fields(LinkFields { download_urls: f.download_urls.push(value), ..f })
    } else if key == "item_id"@ {
        if f.item_id is Some {
            FieldScan::Repeated
        } else {
            FieldScan::Fields(LinkFields { item_id: Some(value), ..f })
        }
    } else if key == "variation_id"@ {
        if f.variation_id is Some {
            FieldScan::Repeated
        } else {
            FieldScan::Fields(LinkFields { variation_id: Some(value), ..f })
        }
    } else if key == "order_id"@ {
        if f.order_id is Some {
            FieldScan::Repeated
        } else {
            FieldScan::Fields(LinkFields { order_id: Some(value), ..f })
        }
    } else if key == "dlurl"@ {
        if f.dlurl is Some {
            FieldScan::Repeated
        } else {
            FieldScan::Fields(LinkFields { dlurl: Some(value), ..f })
        }
    } else if key == "client"@ {
        if f.client is Some {
            FieldScan::Repeated
        } else {
            FieldScan::Fields(LinkFields { client: Some(value), ..f })
        }
    } else if key == "downloadable_filename"@ {
        if f.downloadable_filename is Some {
            FieldScan::Repeated
        } else {
            FieldScan::Fields(LinkFields { downloadable_filename: Some(value), ..f })
        }
    } else {
        FieldScan::Unknown
    }
}

/// Reads the fields in order; the first refused field decides the outcome.
pub open spec fn scan_fields(pairs: Seq<(Seq<char>, Seq<char>)>) -> FieldScan
    decreases pairs.len(),
{
    if pairs.len() == 0 {
        FieldScan::Fields(no_fields())
    } else {
        match scan_fields(pairs.drop_last()) {
            FieldScan::Fields(f) => scan_step(f, pairs.last().0, pairs.last().1),
            other => other,
        }
    }
}

/// What `parse_ascii_id(value, field)` gives: the value of a digit string of at most 19 digits
/// that fits in an `i64` (a digit string has as many bytes as characters).
pub open spec fn ascii_id_result(value: Seq<char>, field: Seq<char>) -> Result<i64, ErrorView> {
    if value.len() == 0 || value.len() > 19 || !all_digits(value)
        || decimal_value(value) > i64::MAX {
        Err(ErrorView::InvalidPayload("invalid "@ + field))
    } else {
        Ok(decimal_value(value) as i64)
    }
}

/// What `parse_id(value, field)` gives.
pub open spec fn id_result(value: Option<Seq<char>>, field: Seq<char>) -> Result<i64, ErrorView> {
    match value {
        None => Err(ErrorView::InvalidPayload("missing "@ + field)),
        Some(v) => ascii_id_result(v, field),
    }
}

/// The last nonempty segment, if any.
pub open spec fn last_nonempty(segments: Seq<Seq<char>>) -> Option<Seq<char>>
    decreases segments.len(),
{
    if segments.len() == 0 {
        None
    } else if segments.last().len() > 0 {
        Some(segments.last())
    } else {
        last_nonempty(segments.drop_last())
    }
}

/// The file name a download address names: its last nonempty path segment, percent-decoded
/// and accepted by `safe_filename`.
pub open spec fn url_filename(u: UrlView) -> Option<Seq<char>> {
    if !has_prefix(u.path, "/"@) {
        None
    } else {
        match last_nonempty(split_in(u.path.drop_first(), seq!['/'])) {
            None => None,
            Some(segment) => match percent_decoded_text(segment) {
                None => None,
                Some(decoded) => safe_filename_result(decoded),
            },
        }
    }
}

/// A download address is refused unless it is an HTTPS address of BOOTH without credentials,
/// on port 443.
pub open spec fn download_address_ok(u: UrlView) -> bool {
    allowed_download_url(u) && u.username.len() == 0 && u.password is None && u.known_port
        == Some(443u16)
}

/// One planned download: its file name and the serialized address it comes from.
pub struct PlannedDownload {
    pub filename: Seq<char>,
    pub signed_url: Seq<char>,
}

/// What becomes of one listed address.
pub open spec fn plan_one(raw: Seq<char>, explicit: Option<Seq<char>>) -> Result<
    PlannedDownload,
    ErrorView,
> {
    match url_parse_result(raw) {
        Err(message) => Err(ErrorView::Url(message)),
        Ok(u) => if !download_address_ok(u) {
            Err(ErrorView::RejectedDownloadUrl)
        } else {
            let name = match explicit {
                Some(f) => safe_filename_result(f),
                None => url_filename(u),
            };
            match name {
                None => Err(ErrorView::UnsafeFilename),
                Some(n) => Ok(PlannedDownload { filename: n, signed_url: u.text }),
            }
        },
    }
}

/// The planned downloads for the listed addresses, in order; the first failure decides.
pub open spec fn plan_all(urls: Seq<Seq<char>>, explicit: Option<Seq<char>>) -> Result<
    Seq<PlannedDownload>,
    ErrorView,
>
    decreases urls.len(),
{
    if urls.len() == 0 {
        Ok(Seq::empty())
    } else {
        match plan_all(urls.drop_last(), explicit) {
            Err(e) => Err(e),
            Ok(done) => match plan_one(urls.last(), explicit) {
                Err(e) => Err(e),
                Ok(d) => Ok(done.push(d)),
            },
        }
    }
}

/// The identifiers and downloads a valid link asks for.
pub struct LinkPlan {
    pub item_id: i64,
    pub variation_id: i64,
    pub downloads: Seq<PlannedDownload>,
}

/// The addresses to download: `dlurl` alone, or one or more `dlurls[]`, never both.
pub open spec fn listed_urls(f: LinkFields) -> Option<Seq<Seq<char>>> {
    match f.dlurl {
        Some(single) => if f.download_urls.len() == 0 {
            Some(seq![single])
        } else {
            None
        },
        None => if f.download_urls.len() > 0 {
            Some(f.download_urls)
        } else {
            None
        },
    }
}

/// The link as a whole is acceptable: the right scheme, at most 32 KiB, no credentials and no
/// fragment.
pub open spec fn link_envelope_ok(u: UrlView) -> bool {
    library_manager_link(u) && encode_utf8(u.text).len() <= MAX_DEEPLINK_LENGTH && u.username.len()
        == 0 && u.password is None && u.fragment is None
}

/// What `parse` makes of a link, step by step in the order the checks are made.
pub open spec fn deeplink_plan(u: UrlView) -> Result<LinkPlan, ErrorView> {
    if !link_envelope_ok(u) {
        Err(ErrorView::UnsupportedDeepLink)
    } else {
        match scan_fields(query_pairs_of(u)) {
            FieldScan::Repeated => Err(
                ErrorView::InvalidPayload("a scalar query field was repeated"@),
            ),
            FieldScan::Unknown => Err(
                ErrorView::InvalidPayload("the deeplink contains an unknown query field"@),
            ),
            FieldScan::Fields(f) => match id_result(f.item_id, "item_id"@) {
                Err(e) => Err(e),
                Ok(item_id) => match id_result(f.variation_id, "variation_id"@) {
                    Err(e) => Err(e),
                    Ok(variation_id) => {
                        let order_ok = match f.order_id {
                            None => true,
                            Some(o) => ascii_id_result(o, "order_id"@) is Ok,
                        };
                        if !order_ok {
                            Err(ErrorView::InvalidPayload("invalid "@ + "order_id"@))
                        } else {
                            match listed_urls(f) {
                                None => Err(
                                    ErrorView::InvalidPayload(
                                        "expected either dlurl or one or more dlurls[] fields"@,
                                    ),
                                ),
                                Some(urls) => if urls.len() > MAX_DOWNLOADS_PER_LINK {
                                    Err(
                                        ErrorView::InvalidPayload(
                                            "too many downloads in one deeplink"@,
                                        ),
                                    )
                                } else {
                                    match plan_all(urls, f.downloadable_filename) {
                                        Err(e) => Err(e),
                                        Ok(downloads) => Ok(
                                            LinkPlan { item_id, variation_id, downloads },
                                        ),
                                    }
                                },
                            }
                        }
                    },
                },
            },
        }
    }
}

/// The single-valued fields and the address list read so far.
struct Fields {
    item_id: Option<String>,
    variation_id: Option<String>,
    order_id: Option<String>,
    dlurl: Option<String>,
    client: Option<String>,
    downloadable_filename: Option<String>,
    download_urls: Vec<String>,
}

impl View for Fields {
    type V = LinkFields;

    closed spec fn view(&self) -> LinkFields {
        LinkFields {
            item_id: opt_view(self.item_id),
            variation_id: opt_view(self.variation_id),
            order_id: opt_view(self.order_id),
            dlurl: opt_view(self.dlurl),
            client: opt_view(self.client),
            downloadable_filename: opt_view(self.downloadable_filename),
            download_urls: self.download_urls.deep_view(),
        }
    }
}

/// Sets a single-valued field; `false` when it was already set.
fn set_once(slot: &mut Option<String>, value: &String) -> (r: bool)
    ensures
        r == ((*old(slot)) is None),
        r ==> opt_view(*final(slot)) == Some(value@),
        !r ==> *final(slot) == *old(slot),
{
    if slot.is_some() {
        false
    } else {
        *slot = Some(value.clone());
        true
    }
}

fn key_is(key: &[char], name: &str) -> (r: bool)
    ensures
        r == (key@ == name@),
{
    let n = chars_of(name);
    chars_eq(key, n.as_slice())
}

/// Reads one query field into `fields`.
fn scan_one(fields: &mut Fields, key: &String, value: &String) -> (r: Result<(), bool>)
    ensures
        match scan_step(old(fields)@, key@, value@) {
            FieldScan::Fields(f) => r is Ok && final(fields)@ == f,
            FieldScan::Repeated => r == Err::<(), bool>(true),
            FieldScan::Unknown => r == Err::<(), bool>(false),
        },
{
    let k = chars_of(key.as_str());
    let ghost f = fields@;
    if key_is(k.as_slice(), "dlurls[]") {
        let ghost before = fields.download_urls.deep_view();
        fields.download_urls.push(value.clone());
        assert(fields.download_urls.deep_view() =~= before.push(value@));
        assert(fields@ =~= LinkFields { download_urls: f.download_urls.push(value@), ..f });
        Ok(())
    } else if key_is(k.as_slice(), "item_id") {
        if set_once(&mut fields.item_id, value) {
            Ok(())
        } else {
            Err(true)
        }
    } else if key_is(k.as_slice(), "variation_id") {
        if set_once(&mut fields.variation_id, value) {
            Ok(())
        } else {
            Err(true)
        }
    } else if key_is(k.as_slice(), "order_id") {
        if set_once(&mut fields.order_id, value) {
            Ok(())
        } else {
            Err(true)
        }
    } else if key_is(k.as_slice(), "dlurl") {
        if set_once(&mut fields.dlurl, value) {
            Ok(())
        } else {
            Err(true)
        }
    } else if key_is(k.as_slice(), "client") {
        if set_once(&mut fields.client, value) {
            Ok(())
        } else {
            Err(true)
        }
    } else if key_is(k.as_slice(), "downloadable_filename") {
        if set_once(&mut fields.downloadable_filename, value) {
            Ok(())
        } else {
            Err(true)
        }
    } else {
        Err(false)
    }
}

/// Reads a decimal identifier of at most 19 digits.
fn parse_ascii_id(value: &String, field: &str) -> (r: Result<i64, AppError>)
    ensures
        match (r, ascii_id_result(value@, field@)) {
            (Ok(v), Ok(w)) => v == w,
            (Err(e), Err(w)) => e@ == w,
            _ => false,
        },
{
    let v = chars_of(value.as_str());
    let parsed = if v.len() > 19 {
        None
    } else {
        parse_digits_i64(v.as_slice())
    };
    match parsed {
        Some(n) => Ok(n),
        None => {
            let mut message = String::from_str("invalid ");
            message.append(field);
            Err(AppError::InvalidPayload(message))
        },
    }
}

/// Reads a required decimal identifier.
fn parse_id(value: &Option<String>, field: &str) -> (r: Result<i64, AppError>)
    ensures
        match (r, id_result(opt_view(*value), field@)) {
            (Ok(v), Ok(w)) => v == w,
            (Err(e), Err(w)) => e@ == w,
            _ => false,
        },
{
    match value {
        None => {
            let mut message = String::from_str("missing ");
            message.append(field);
            Err(AppError::InvalidPayload(message))
        },
        Some(v) => parse_ascii_id(v, field),
    }
}

/// The last nonempty segment of `segments`.
fn find_last_nonempty(segments: &Vec<Vec<char>>) -> (r: Option<Vec<char>>)
    ensures
        match r {
            Some(s) => last_nonempty(segments.deep_view()) == Some(s@),
            None => last_nonempty(segments.deep_view()) is None,
        },
{
    let mut i: usize = segments.len();
    assert(segments.deep_view().take(i as int) =~= segments.deep_view());
    while i > 0
        invariant
            i <= segments.len(),
            last_nonempty(segments.deep_view()) == last_nonempty(
                segments.deep_view().take(i as int),
            ),
        decreases i,
    {
        let ghost t = segments.deep_view().take(i as int);
        assert(t.last() == segments@[i - 1]@);
        assert(t.drop_last() =~= segments.deep_view().take(i - 1));
        if segments[i - 1].len() > 0 {
            let copy = crate::text::vec_of(segments[i - 1].as_slice());
            return Some(copy);
        }
        i -= 1;
    }
    None
}

/// The file name that the last nonempty path segment of `url` gives.
fn filename_from_url(url: &WebUrl) -> (r: Result<String, AppError>)
    ensures
        match r {
            Ok(name) => url_filename(url@) == Some(name@),
            Err(e) => url_filename(url@) is None && e is UnsafeFilename,
        },
{
    let path = chars_of(url.path.as_str());
    proof {
        reveal_strlit("/");
    }
    if path.len() == 0 || path[0] != '/' {
        proof {
            if path@.len() > 0 {
                assert(path@.take(1)[0] != "/"@[0]);
            }
        }
        return Err(AppError::UnsafeFilename);
    }
    assert(path@.take(1) =~= "/"@);
    let rest = crate::text::slice_vec(path.as_slice(), 1, path.len());
    assert(rest@ =~= path@.drop_first());
    let slash = vec!['/'];
    assert(slash@ =~= seq!['/']);
    let segments = split_by(rest.as_slice(), slash.as_slice());
    match find_last_nonempty(&segments) {
        None => Err(AppError::UnsafeFilename),
        Some(segment) => {
            let encoded = string_of(segment.as_slice());
            match percent_decode_utf8(encoded.as_str()) {
                None => Err(AppError::UnsafeFilename),
                Some(decoded) => safe_filename(decoded.as_str()),
            }
        },
    }
}

/// The request for one listed address.
fn plan_request(
    raw: &String,
    explicit: &Option<String>,
    item_id: i64,
    variation_id: i64,
) -> (r: Result<DownloadRequest, AppError>)
    ensures
        match (r, plan_one(raw@, opt_view(*explicit))) {
            (Ok(q), Ok(p)) => planned_request(q, p, item_id, variation_id),
            (Err(e), Err(w)) => e@ == w,
            _ => false,
        },
{
    let signed_url = match WebUrl::parse(raw.as_str()) {
        Ok(u) => u,
        Err(message) => return Err(AppError::Url(message)),
    };
    if !is_allowed_download_url(&signed_url) || !signed_url.username.as_str().is_empty()
        || signed_url.password.is_some() || signed_url.known_port != Some(443u16) {
        return Err(AppError::RejectedDownloadUrl);
    }
    let filename = match explicit {
        Some(f) => safe_filename(f.as_str())?,
        None => filename_from_url(&signed_url)?,
    };
    Ok(
        DownloadRequest {
            request_id: new_uuid(),
            item_id,
            variation_id,
            downloadable_id: None,
            product_name: None,
            shop_name: None,
            filename,
            signed_url: Some(signed_url.text),
        },
    )
}

/// `q` is the request that the plan `p` describes for the given identifiers.
pub open spec fn planned_request(
    q: DownloadRequest,
    p: PlannedDownload,
    item_id: i64,
    variation_id: i64,
) -> bool {
    &&& q@.item_id == item_id
    &&& q@.variation_id == variation_id
    &&& q@.downloadable_id is None
    &&& q@.product_name is None
    &&& q@.shop_name is None
    &&& q@.filename == p.filename
    &&& q@.signed_url == Some(p.signed_url)
    &&& q@.request_id.len() == 36
    &&& uuid_canonical(q@.request_id) == Some(q@.request_id)
}

/// Parses a BOOTH Library Manager link into download requests. The link must use the
/// `booth-library-manager` scheme, be at most 32 KiB, carry no credentials or fragment, name
/// only known query fields (each single-valued field once), give valid item and variation
/// identifiers, and list one `dlurl` or up to 32 `dlurls[]` HTTPS BOOTH addresses on port 443.
/// Each request receives a fresh random identifier.
pub fn parse(url: &WebUrl) -> (r: Result<Vec<DownloadRequest>, AppError>)
    ensures
        match (r, deeplink_plan(url@)) {
            (Ok(v), Ok(p)) => v.len() == p.downloads.len() && forall|i: int|
                0 <= i < v.len() ==> planned_request(
                    #[trigger] v@[i],
                    p.downloads[i],
                    p.item_id,
                    p.variation_id,
                ),
            (Err(e), Err(w)) => e@ == w,
            _ => false,
        },
{
    if !is_booth_library_manager_link(url) || url.text.as_str().as_bytes().len() > MAX_DEEPLINK_LENGTH
        || !url.username.as_str().is_empty() || url.password.is_some() || url.fragment.is_some() {
        return Err(AppError::UnsupportedDeepLink);
    }
    let pairs = url.query_pairs();
    let mut fields = Fields {
        item_id: None,
        variation_id: None,
        order_id: None,
        dlurl: None,
        client: None,
        downloadable_filename: None,
        download_urls: Vec::new(),
    };
    assert(fields.download_urls.deep_view() =~= Seq::<Seq<char>>::empty());
    assert(fields@ == no_fields());
    let mut i: usize = 0;
    while i < pairs.len()
        invariant
            i <= pairs.len(),
            pairs.deep_view() == query_pairs_of(url@),
            link_envelope_ok(url@),
            scan_fields(pairs.deep_view().take(i as int)) == FieldScan::Fields(fields@),
        decreases pairs.len() - i,
    {
        let ghost t = pairs.deep_view().take(i as int + 1);
        assert(t.drop_last() =~= pairs.deep_view().take(i as int));
        assert(t.last() == (pairs@[i as int].0@, pairs@[i as int].1@));
        let ghost before = fields@;
        assert(scan_fields(t) == scan_step(before, pairs@[i as int].0@, pairs@[i as int].1@));
        match scan_one(&mut fields, &pairs[i].0, &pairs[i].1) {
            Ok(()) => {},
            Err(repeated) => {
                assert(pairs.deep_view().take(pairs.len() as int) =~= pairs.deep_view());
                proof {
                    lemma_scan_stops(pairs.deep_view(), i as int + 1);
                }
                assert(scan_fields(query_pairs_of(url@)) == scan_fields(t));
                if repeated {
                    return Err(
                        AppError::InvalidPayload(
                            String::from_str("a scalar query field was repeated"),
                        ),
                    );
                } else {
                    return Err(
                        AppError::InvalidPayload(
                            String::from_str("the deeplink contains an unknown query field"),
                        ),
                    );
                }
            },
        }
        i += 1;
    }
    assert(pairs.deep_view().take(pairs.len() as int) =~= pairs.deep_view());
    let item_id = parse_id(&fields.item_id, "item_id")?;
    let variation_id = parse_id(&fields.variation_id, "variation_id")?;
    if let Some(order_id) = &fields.order_id {
        if parse_ascii_id(order_id, "order_id").is_err() {
            let mut message = String::from_str("invalid ");
            message.append("order_id");
            return Err(AppError::InvalidPayload(message));
        }
    }
    let ghost f = fields@;
    let urls: Vec<String> = match (&fields.dlurl, fields.download_urls.len() == 0) {
        (Some(single), true) => {
            let mut v: Vec<String> = Vec::new();
            v.push(single.clone());
            assert(v.deep_view() =~= seq![single@]);
            v
        },
        (None, false) => fields.download_urls,
        _ => {
            return Err(
                AppError::InvalidPayload(
                    String::from_str("expected either dlurl or one or more dlurls[] fields"),
                ),
            );
        },
    };
    if urls.len() > MAX_DOWNLOADS_PER_LINK {
        return Err(
            AppError::InvalidPayload(String::from_str("too many downloads in one deeplink")),
        );
    }
    let ghost explicit = f.downloadable_filename;
    let mut requests: Vec<DownloadRequest> = Vec::new();
    let mut j: usize = 0;
    while j < urls.len()
        invariant
            j <= urls.len(),
            explicit == opt_view(fields.downloadable_filename),
            link_envelope_ok(url@),
            scan_fields(query_pairs_of(url@)) == FieldScan::Fields(f),
            explicit == f.downloadable_filename,
            id_result(f.item_id, "item_id"@) == Ok::<i64, ErrorView>(item_id),
            id_result(f.variation_id, "variation_id"@) == Ok::<i64, ErrorView>(variation_id),
            f.order_id matches Some(o) ==> ascii_id_result(o, "order_id"@) is Ok,
            listed_urls(f) == Some(urls.deep_view()),
            urls.len() <= MAX_DOWNLOADS_PER_LINK,
            plan_all(urls.deep_view().take(j as int), explicit) matches Ok(done) && requests.len()
                == done.len() && forall|k: int|
                0 <= k < requests.len() ==> planned_request(
                    #[trigger] requests@[k],
                    done[k],
                    item_id,
                    variation_id,
                ),
        decreases urls.len() - j,
    {
        let ghost t = urls.deep_view().take(j as int + 1);
        assert(t.drop_last() =~= urls.deep_view().take(j as int));
        assert(t.last() == urls@[j as int]@);
        let request = plan_request(&urls[j], &fields.downloadable_filename, item_id, variation_id);
        let ghost done = plan_all(urls.deep_view().take(j as int), explicit);
        assert(plan_all(t, explicit) == match plan_one(urls@[j as int]@, explicit) {
            Err(e) => Err(e),
            Ok(d) => Ok(done->Ok_0.push(d)),
        });
        match request {
            Ok(q) => {
                let ghost old_requests = requests@;
                requests.push(q);
                assert(requests@ == old_requests.push(q));
            },
            Err(e) => {
                proof {
                    lemma_plan_stops(urls.deep_view(), explicit, j as int + 1);
                    assert(urls.deep_view().take(urls.len() as int) =~= urls.deep_view());
                }
                return Err(e);
            },
        }
        j += 1;
    }
    assert(urls.deep_view().take(urls.len() as int) =~= urls.deep_view());
    Ok(requests)
}

/// Once the fields of a prefix are refused, so are the fields of the whole list.
pub proof fn lemma_scan_stops(pairs: Seq<(Seq<char>, Seq<char>)>, k: int)
    requires
        0 <= k <= pairs.len(),
        !(scan_fields(pairs.take(k)) is Fields),
    ensures
        scan_fields(pairs) == scan_fields(pairs.take(k)),
    decreases pairs.len() - k,
{
    if k < pairs.len() {
        assert(pairs.take(k + 1).drop_last() =~= pairs.take(k));
        lemma_scan_stops(pairs, k + 1);
    } else {
        assert(pairs.take(k) =~= pairs);
    }
}

/// Once an address of a prefix fails, the whole list fails with the same error.
pub proof fn lemma_plan_stops(urls: Seq<Seq<char>>, explicit: Option<Seq<char>>, k: int)
    requires
        0 <= k <= urls.len(),
        plan_all(urls.take(k), explicit) is Err,
    ensures
        plan_all(urls, explicit) == plan_all(urls.take(k), explicit),
    decreases urls.len() - k,
{
    if k < urls.len() {
        assert(urls.take(k + 1).drop_last() =~= urls.take(k));
        lemma_plan_stops(urls, explicit, k + 1);
    } else {
        assert(urls.take(k) =~= urls);
    }
}

/// A query field of a link that may be given only once.
pub open spec fn single_valued_field(key: Seq<char>) -> bool {
    key == "item_id"@ || key == "variation_id"@ || key == "order_id"@ || key == "dlurl"@ || key
        == "client"@ || key == "downloadable_filename"@
}

/// A query field a link may carry.
pub open spec fn known_field(key: Seq<char>) -> bool {
    key == "dlurls[]"@ || single_valued_field(key)
}

/// The fields read so far hold a value for the single-valued field `key`.
pub open spec fn field_set(f: LinkFields, key: Seq<char>) -> bool {
    &&& key == "item_id"@ ==> f.item_id is Some
    &&& key == "variation_id"@ ==> f.variation_id is Some
    &&& key == "order_id"@ ==> f.order_id is Some
    &&& key == "dlurl"@ ==> f.dlurl is Some
    &&& key == "client"@ ==> f.client is Some
    &&& key == "downloadable_filename"@ ==> f.downloadable_filename is Some
}

/// The field names differ from one another: by length, or (for `dlurls[]` and `order_id`) by
/// their first character.
proof fn reveal_field_names()
    ensures
        "dlurls[]"@.len() == 8 && "dlurls[]"@[0] == 'd',
        "item_id"@.len() == 7,
        "variation_id"@.len() == 12,
        "order_id"@.len() == 8 && "order_id"@[0] == 'o',
        "dlurl"@.len() == 5,
        "client"@.len() == 6,
        "downloadable_filename"@.len() == 21,
{
    reveal_strlit("dlurls[]");
    reveal_strlit("item_id");
    reveal_strlit("variation_id");
    reveal_strlit("order_id");
    reveal_strlit("dlurl");
    reveal_strlit("client");
    reveal_strlit("downloadable_filename");
}

/// Reading one field keeps the single-valued fields already set and sets its own; an unknown
/// field is refused, and so is a single-valued field already set.
proof fn lemma_step_fields(g: LinkFields, k: Seq<char>, v: Seq<char>, key: Seq<char>)
    ensures
        scan_step(g, k, v) matches FieldScan::Fields(f) ==> (field_set(g, key) ==> field_set(f, key))
            && field_set(f, k),
        !known_field(k) ==> scan_step(g, k, v) == FieldScan::Unknown,
        single_valued_field(k) && field_set(g, k) ==> scan_step(g, k, v) == FieldScan::Repeated,
{
    reveal_field_names();
}

/// Once fields are read without refusal, every single-valued field that occurred is set.
proof fn lemma_scanned_fields_are_set(pairs: Seq<(Seq<char>, Seq<char>)>)
    ensures
        scan_fields(pairs) matches FieldScan::Fields(f) ==> forall|j: int|
            0 <= j < pairs.len() ==> field_set(f, (#[trigger] pairs[j]).0),
    decreases pairs.len(),
{
    if pairs.len() > 0 {
        let rest = pairs.drop_last();
        lemma_scanned_fields_are_set(rest);
        if let FieldScan::Fields(g) = scan_fields(rest) {
            assert(scan_fields(pairs) == scan_step(g, pairs.last().0, pairs.last().1));
            if let FieldScan::Fields(f) = scan_fields(pairs) {
                assert forall|j: int| 0 <= j < pairs.len() implies field_set(
                    f,
                    (#[trigger] pairs[j]).0,
                ) by {
                    lemma_step_fields(g, pairs.last().0, pairs.last().1, pairs[j].0);
                    if j < pairs.len() - 1 {
                        assert(rest[j] == pairs[j]);
                        assert(field_set(g, rest[j].0));
                    }
                }
            }
        }
    }
}

/// A link with an acceptable envelope whose query carries an unknown field, or one of the
/// single-valued fields twice, is refused as an invalid payload, and no download is planned.
pub proof fn lemma_unknown_or_repeated_field_is_refused(u: UrlView)
    requires
        link_envelope_ok(u),
        (exists|i: int|
            0 <= i < query_pairs_of(u).len() && !known_field((#[trigger] query_pairs_of(u)[i]).0))
            || (exists|i: int, j: int|
            0 <= i < j < query_pairs_of(u).len() && single_valued_field(
                (#[trigger] query_pairs_of(u)[i]).0,
            ) && (#[trigger] query_pairs_of(u)[j]).0 == query_pairs_of(u)[i].0),
    ensures
        deeplink_plan(u) matches Err(ErrorView::InvalidPayload(_)),
{
    let pairs = query_pairs_of(u);
    reveal_field_names();
    let k: int = if exists|i: int| 0 <= i < pairs.len() && !known_field((#[trigger] pairs[i]).0) {
        choose|i: int| 0 <= i < pairs.len() && !known_field((#[trigger] pairs[i]).0)
    } else {
        let (i, j) = choose|i: int, j: int|
            0 <= i < j < pairs.len() && single_valued_field((#[trigger] pairs[i]).0) && (
            #[trigger] pairs[j]).0 == pairs[i].0;
        lemma_scanned_fields_are_set(pairs.take(j));
        assert(pairs.take(j)[i] == pairs[i]);
        j
    };
    assert(0 <= k < pairs.len());
    assert(pairs.take(k + 1).drop_last() =~= pairs.take(k));
    assert(pairs.take(k + 1).last() == pairs[k]);
    if let FieldScan::Fields(g) = scan_fields(pairs.take(k)) {
        lemma_step_fields(g, pairs[k].0, pairs[k].1, pairs[k].0);
    }
    assert(!(scan_fields(pairs.take(k + 1)) is Fields));
    lemma_scan_stops(pairs, k + 1);
}

/// Each address as a `dlurls[]` query pair, in order.
pub open spec fn dlurls_pairs(urls: Seq<Seq<char>>) -> Seq<(Seq<char>, Seq<char>)> {
    urls.map_values(|x: Seq<char>| ("dlurls[]"@, x))
}

/// The fields read from an item, a variation and then `dlurls[]` pairs for `urls`.
proof fn lemma_scan_listed(item: Seq<char>, variation: Seq<char>, urls: Seq<Seq<char>>)
    ensures
        scan_fields(seq![("item_id"@, item), ("variation_id"@, variation)] + dlurls_pairs(urls))
            == FieldScan::Fields(
            LinkFields {
                item_id: Some(item),
                variation_id: Some(variation),
                order_id: None,
                dlurl: None,
                client: None,
                downloadable_filename: None,
                download_urls: urls,
            },
        ),
    decreases urls.len(),
{
    reveal_field_names();
    let head = seq![("item_id"@, item), ("variation_id"@, variation)];
    if urls.len() == 0 {
        assert(head + dlurls_pairs(urls) =~= head);
        assert(head.drop_last() =~= seq![("item_id"@, item)]);
        let one = seq![("item_id"@, item)];
        let e = Seq::<(Seq<char>, Seq<char>)>::empty();
        assert(one.drop_last() =~= e);
        assert(scan_fields(e) == FieldScan::Fields(no_fields()));
        assert(scan_fields(one) == scan_step(no_fields(), "item_id"@, item));
        let f1 = LinkFields { item_id: Some(item), ..no_fields() };
        assert(scan_fields(one) == FieldScan::Fields(f1));
        assert(head.last() == ("variation_id"@, variation));
        assert(scan_fields(head) == scan_step(f1, "variation_id"@, variation));
        assert(urls =~= Seq::<Seq<char>>::empty());
    } else {
        lemma_scan_listed(item, variation, urls.drop_last());
        let all = head + dlurls_pairs(urls);
        assert(all.drop_last() =~= head + dlurls_pairs(urls.drop_last()));
        assert(all.last() == ("dlurls[]"@, urls.last()));
        assert(urls.drop_last().push(urls.last()) =~= urls);
        let prev = LinkFields {
            item_id: Some(item),
            variation_id: Some(variation),
            order_id: None,
            dlurl: None,
            client: None,
            downloadable_filename: None,
            download_urls: urls.drop_last(),
        };
        assert(scan_fields(all) == scan_step(prev, "dlurls[]"@, urls.last()));
    }
}

/// Every address acceptable on its own is planned, in order.
proof fn lemma_plan_all_listed(urls: Seq<Seq<char>>, explicit: Option<Seq<char>>)
    requires
        forall|i: int| 0 <= i < urls.len() ==> (#[trigger] plan_one(urls[i], explicit)) is Ok,
    ensures
        plan_all(urls, explicit) matches Ok(ds) && ds.len() == urls.len() && forall|i: int|
            0 <= i < urls.len() ==> ds[i] == (#[trigger] plan_one(urls[i], explicit))->Ok_0,
    decreases urls.len(),
{
    if urls.len() > 0 {
        let rest = urls.drop_last();
        assert forall|i: int| 0 <= i < rest.len() implies (#[trigger] plan_one(rest[i], explicit)) is Ok by {
            assert(rest[i] == urls[i]);
            assert(plan_one(urls[i], explicit) is Ok);
        }
        lemma_plan_all_listed(rest, explicit);
        assert(plan_one(urls[urls.len() - 1], explicit) is Ok);
        let ds = plan_all(urls, explicit)->Ok_0;
        let done = plan_all(rest, explicit)->Ok_0;
        assert forall|i: int| 0 <= i < urls.len() implies ds[i] == (#[trigger] plan_one(
            urls[i],
            explicit,
        ))->Ok_0 by {
            if i < urls.len() - 1 {
                assert(rest[i] == urls[i]);
                assert(done[i] == plan_one(rest[i], explicit)->Ok_0);
            }
        }
    }
}

/// A link that names an item, a variation and then `n` `dlurls[]` fields (at most 32), each
/// an acceptable BOOTH address, yields exactly `n` downloads: the `i`-th comes from the `i`-th
/// `dlurls[]` value, so every listed file is downloaded, in the order given.
pub proof fn lemma_every_listed_address_is_downloaded(
    u: UrlView,
    item: Seq<char>,
    variation: Seq<char>,
    urls: Seq<Seq<char>>,
)
    requires
        link_envelope_ok(u),
        query_pairs_of(u) == seq![("item_id"@, item), ("variation_id"@, variation)] + dlurls_pairs(
            urls,
        ),
        id_result(Some(item), "item_id"@) is Ok,
        id_result(Some(variation), "variation_id"@) is Ok,
        0 < urls.len() <= MAX_DOWNLOADS_PER_LINK,
        forall|i: int| 0 <= i < urls.len() ==> (#[trigger] plan_one(urls[i], None)) is Ok,
    ensures
        deeplink_plan(u) matches Ok(p) && p.downloads.len() == urls.len() && forall|i: int|
            0 <= i < urls.len() ==> p.downloads[i] == (#[trigger] plan_one(urls[i], None))->Ok_0,
{
    lemma_scan_listed(item, variation, urls);
    lemma_plan_all_listed(urls, None);
}

} // verus!
