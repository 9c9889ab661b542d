//! The bookkeeping rules of the library index: when product metadata may be fetched, and
//! the defaults recorded for a download.
use vstd::prelude::*;
use crate::metadata::{seconds_until, seconds_until_spec};
use crate::model::{DownloadRequest, ProductInputView, UpsertProductInput};
use crate::text::{chars_of, i64_text, parse_i64, push_i64, signed_decimal, string_of};

verus! {

/// How long fetched metadata stays fresh, how long a failed fetch is not retried, and the
/// least time between two requests.
#[derive(Debug, Clone, Copy)]
pub struct MetadataFetchPolicy {
    pub success_cache_seconds: i64,
    pub failed_retry_seconds: i64,
    pub minimum_interval_seconds: i64,
}

/// Whether a fetch was asked for by a download (automatic) or by the user (manual).
#[derive(Debug, Clone, Copy, PartialEq, Eq, Structural)]
pub enum MetadataFetchMode {
    Automatic,
    Manual,
}

/// Why a metadata fetch was not made.
#[derive(Debug, Clone, Copy, PartialEq, Eq, Structural)]
pub enum MetadataFetchSkipReason {
    CachedOrCoolingDown,
    MinimumInterval,
    Paused,
}

/// The answer to a request to fetch an item's metadata: fetch it (with the earlier metadata
/// to fall back on), or skip it (with the cached metadata, if any).
#[derive(Debug)]
pub enum MetadataFetchReservation {
    Fetch { stale: Option<UpsertProductInput> },
    Skip { cached: Option<UpsertProductInput>, reason: MetadataFetchSkipReason },
}

/// When an item's metadata was last requested, and last fetched successfully.
#[derive(Debug, Clone, Copy, PartialEq, Eq, Structural)]
pub struct FetchRecord {
    pub last_attempt_at: i64,
    pub last_success_at: Option<i64>,
}

/// What the index records about metadata requests: the global pause, the last request made,
/// and the record of the item in question.
#[derive(Debug, Clone, Copy, PartialEq, Eq, Structural)]
pub struct MetadataFetchState {
    pub paused_until: Option<i64>,
    pub last_request_at: Option<i64>,
    pub item: Option<FetchRecord>,
}

/// The seconds from `then` to `now`, never negative.
pub open spec fn elapsed_spec(now: int, then: int) -> int {
    seconds_until_spec(now, then)
}

/// The seconds from `then` to `now`, or zero when `then` is later.
pub fn elapsed_seconds(now: i64, then: i64) -> (r: i64)
    ensures
        r == elapsed_spec(now as int, then as int),
        r >= 0,
{
    seconds_until(now, then)
}

/// Requests are paused at `now`.
pub open spec fn paused_at(s: MetadataFetchState, now: int) -> bool {
    s.paused_until matches Some(until) && until > now
}

/// The item was fetched successfully recently enough, or requested recently enough, that an
/// automatic fetch is not made.
pub open spec fn cooling_down(s: MetadataFetchState, now: int, policy: MetadataFetchPolicy) -> bool {
    s.item matches Some(rec) && ((rec.last_success_at matches Some(ok) && elapsed_spec(now, ok as int)
        < policy.success_cache_seconds) || elapsed_spec(now, rec.last_attempt_at as int)
        < policy.failed_retry_seconds)
}

/// The last request to BOOTH was made less than the minimum interval ago.
pub open spec fn too_soon(s: MetadataFetchState, now: int, policy: MetadataFetchPolicy) -> bool {
    s.last_request_at matches Some(last) && elapsed_spec(now, last as int)
        < policy.minimum_interval_seconds
}

/// Why a fetch at `now` is skipped, or `None` when it is made.
pub open spec fn skip_reason(
    s: MetadataFetchState,
    now: int,
    policy: MetadataFetchPolicy,
    mode: MetadataFetchMode,
) -> Option<MetadataFetchSkipReason> {
    if paused_at(s, now) {
        Some(MetadataFetchSkipReason::Paused)
    } else if mode == MetadataFetchMode::Automatic && cooling_down(s, now, policy) {
        Some(MetadataFetchSkipReason::CachedOrCoolingDown)
    } else if too_soon(s, now, policy) {
        Some(MetadataFetchSkipReason::MinimumInterval)
    } else {
        None
    }
}

/// The state after a fetch is reserved at `now`: the item's attempt and the last request
/// are both `now`; an earlier success is kept.
pub open spec fn reserved_state(s: MetadataFetchState, now: i64) -> MetadataFetchState {
    MetadataFetchState {
        paused_until: s.paused_until,
        last_request_at: Some(now),
        item: Some(
            FetchRecord {
                last_attempt_at: now,
                last_success_at: match s.item {
                    Some(rec) => rec.last_success_at,
                    None => None,
                },
            },
        ),
    }
}

/// The view of an optional product.
pub open spec fn opt_product(p: Option<UpsertProductInput>) -> Option<ProductInputView> {
    match p {
        Some(p) => Some(p@),
        None => None,
    }
}

fn too_soon_exec(s: &MetadataFetchState, now: i64, policy: MetadataFetchPolicy) -> (r: bool)
    ensures
        r == too_soon(*s, now as int, policy),
{
    match s.last_request_at {
        Some(last) => elapsed_seconds(now, last) < policy.minimum_interval_seconds,
        None => false,
    }
}

fn cooling_down_exec(s: &MetadataFetchState, now: i64, policy: MetadataFetchPolicy) -> (r: bool)
    ensures
        r == cooling_down(*s, now as int, policy),
{
    match s.item {
        Some(rec) => {
            let fresh = match rec.last_success_at {
                Some(ok) => elapsed_seconds(now, ok) < policy.success_cache_seconds,
                None => false,
            };
            fresh || elapsed_seconds(now, rec.last_attempt_at) < policy.failed_retry_seconds
        },
        None => false,
    }
}

/// Decides whether the metadata of an item is fetched at `now`, and records the reservation
/// in `state` when it is. A pause is always honoured; an automatic fetch is skipped while the
/// item's cache is fresh or its last attempt is recent; every fetch keeps the minimum
/// interval after the previous request. `cached` is the metadata already stored for the item.
pub fn reserve_metadata_fetch(
    state: &mut MetadataFetchState,
    cached: Option<UpsertProductInput>,
    now: i64,
    policy: MetadataFetchPolicy,
    mode: MetadataFetchMode,
) -> (r: MetadataFetchReservation)
    ensures
        match skip_reason(*old(state), now as int, policy, mode) {
            Some(reason) => *final(state) == *old(state) && (r matches MetadataFetchReservation::Skip {
                cached: c,
                reason: why,
            } && why == reason && opt_product(c) == opt_product(cached)),
            None => *final(state) == reserved_state(*old(state), now) && (
            r matches MetadataFetchReservation::Fetch { stale } && opt_product(stale) == opt_product(
                cached,
            )),
        },
{
    if let Some(until) = state.paused_until {
        if until > now {
            return MetadataFetchReservation::Skip {
                cached,
                reason: MetadataFetchSkipReason::Paused,
            };
        }
    }
    if mode == MetadataFetchMode::Automatic && cooling_down_exec(state, now, policy) {
        return MetadataFetchReservation::Skip {
            cached,
            reason: MetadataFetchSkipReason::CachedOrCoolingDown,
        };
    }
    if too_soon_exec(state, now, policy) {
        return MetadataFetchReservation::Skip {
            cached,
            reason: MetadataFetchSkipReason::MinimumInterval,
        };
    }
    let kept_success = match state.item {
        Some(rec) => rec.last_success_at,
        None => None,
    };
    state.item = Some(FetchRecord { last_attempt_at: now, last_success_at: kept_success });
    state.last_request_at = Some(now);
    MetadataFetchReservation::Fetch { stale: cached }
}

/// Records a successful fetch of the item at `now`.
pub fn record_fetch_success(state: &mut MetadataFetchState, now: i64)
    ensures
        *final(state) == (MetadataFetchState {
            paused_until: old(state).paused_until,
            last_request_at: old(state).last_request_at,
            item: Some(FetchRecord { last_attempt_at: now, last_success_at: Some(now) }),
        }),
{
    state.item = Some(FetchRecord { last_attempt_at: now, last_success_at: Some(now) });
}

/// While requests are paused, no fetch is made and nothing is recorded.
pub proof fn lemma_pause_is_honoured(
    s: MetadataFetchState,
    now: int,
    policy: MetadataFetchPolicy,
    mode: MetadataFetchMode,
)
    requires
        paused_at(s, now),
    ensures
        skip_reason(s, now, policy, mode) == Some(MetadataFetchSkipReason::Paused),
{
}

/// Once a fetch is reserved at `t`, no other fetch, automatic or manual, for any item, is
/// made before the minimum interval has passed, as long as the interval is positive.
pub proof fn lemma_minimum_interval_between_fetches(
    s: MetadataFetchState,
    other: Option<FetchRecord>,
    t: i64,
    later: i64,
    policy: MetadataFetchPolicy,
    mode: MetadataFetchMode,
)
    requires
        skip_reason(s, t as int, policy, mode) is None,
        t <= later,
        later - t < policy.minimum_interval_seconds,
    ensures
        skip_reason(MetadataFetchState { item: other, ..reserved_state(s, t) }, later as int, policy, mode)
            is Some,
{
}

/// A manual fetch ignores the item's own cache and cooldown: it is made whenever requests
/// are not paused and the minimum interval has passed.
pub proof fn lemma_manual_fetch_ignores_item_cache(
    s: MetadataFetchState,
    now: int,
    policy: MetadataFetchPolicy,
)
    requires
        !paused_at(s, now),
        !too_soon(s, now, policy),
    ensures
        skip_reason(s, now, policy, MetadataFetchMode::Manual) is None,
{
}

/// An automatic fetch is not made while the item's last successful fetch is fresh.
pub proof fn lemma_fresh_cache_skips_automatic_fetch(
    s: MetadataFetchState,
    now: int,
    policy: MetadataFetchPolicy,
)
    requires
        s.item matches Some(rec) && rec.last_success_at matches Some(ok) && elapsed_spec(
            now,
            ok as int,
        ) < policy.success_cache_seconds,
    ensures
        skip_reason(s, now, policy, MetadataFetchMode::Automatic) is Some,
{
}

/// A stored setting read as an `i64`, as `str::parse` reads it; unreadable values count as
/// absent.
pub fn setting_value_i64(value: Option<&str>) -> (r: Option<i64>)
    ensures
        match value {
            Some(v) => match r {
                Some(n) => signed_decimal(v@) == Some(n as int),
                None => signed_decimal(v@) is None,
            },
            None => r is None,
        },
{
    match value {
        Some(v) => parse_i64(chars_of(v).as_slice()),
        None => None,
    }
}

/// The name, shop and page recorded for a product first seen through a download.
pub struct ProductDefaults {
    pub name: String,
    pub shop_name: String,
    pub product_url: String,
}

/// The name recorded for an item whose name is unknown: `BOOTH item {item_id}`.
pub open spec fn fallback_product_name(item_id: i64) -> Seq<char> {
    "BOOTH item "@ + i64_text(item_id as int)
}

/// The public page of an item: `https://booth.pm/ja/items/{item_id}`.
pub open spec fn product_page_url(item_id: i64) -> Seq<char> {
    "https://booth.pm/ja/items/"@ + i64_text(item_id as int)
}

fn text_with_id(prefix: &str, id: i64) -> (r: String)
    ensures
        r@ == prefix@ + i64_text(id as int),
{
    let mut out = chars_of(prefix);
    push_i64(&mut out, id);
    string_of(out.as_slice())
}

/// The public page of an item.
pub fn product_url_for(item_id: i64) -> (r: String)
    ensures
        r@ == product_page_url(item_id),
{
    text_with_id("https://booth.pm/ja/items/", item_id)
}

/// The name to record for an item: the known name, else `BOOTH item {item_id}`.
pub fn product_name_or_fallback(name: &Option<String>, item_id: i64) -> (r: String)
    ensures
        r@ == match name {
            Some(n) => n@,
            None => fallback_product_name(item_id),
        },
{
    match name {
        Some(n) => string_of(chars_of(n.as_str()).as_slice()),
        None => text_with_id("BOOTH item ", item_id),
    }
}

/// The shop to record: the known shop, else `BOOTH`.
pub fn shop_name_or_fallback(shop: &Option<String>) -> (r: String)
    ensures
        r@ == match shop {
            Some(s) => s@,
            None => "BOOTH"@,
        },
{
    match shop {
        Some(s) => string_of(chars_of(s.as_str()).as_slice()),
        None => string_of(chars_of("BOOTH").as_slice()),
    }
}

/// What is recorded for the product of a download that the index does not know yet.
pub fn download_product_defaults(request: &DownloadRequest) -> (r: ProductDefaults)
    ensures
        r.name@ == match request.product_name {
            Some(n) => n@,
            None => fallback_product_name(request.item_id),
        },
        r.shop_name@ == match request.shop_name {
            Some(s) => s@,
            None => "BOOTH"@,
        },
        r.product_url@ == product_page_url(request.item_id),
{
    ProductDefaults {
        name: product_name_or_fallback(&request.product_name, request.item_id),
        shop_name: shop_name_or_fallback(&request.shop_name),
        product_url: product_url_for(request.item_id),
    }
}

/// The byte size as stored: sizes beyond `i64::MAX` are stored as `i64::MAX`.
pub fn stored_byte_size(byte_size: u64) -> (r: i64)
    ensures
        byte_size <= i64::MAX ==> r == byte_size,
        byte_size > i64::MAX ==> r == i64::MAX,
{
    if byte_size > 9223372036854775807u64 {
        9223372036854775807i64
    } else {
        byte_size as i64
    }
}


/// An indexed download and where it is stored.
#[derive(Debug, Clone)]
pub struct ArtifactLocation {
    pub artifact_id: String,
    pub local_path: String,
}

/// The policy for fetching product metadata when a download needs it: fresh for thirty
/// days, retried after a day, and at most one request every ten seconds.
pub fn fetch_policy() -> (r: MetadataFetchPolicy)
    ensures
        r.success_cache_seconds == crate::metadata::SUCCESS_CACHE_SECONDS,
        r.failed_retry_seconds == crate::metadata::FAILED_RETRY_SECONDS,
        r.minimum_interval_seconds == crate::metadata::MINIMUM_REQUEST_INTERVAL_SECONDS,
{
    MetadataFetchPolicy {
        success_cache_seconds: crate::metadata::SUCCESS_CACHE_SECONDS,
        failed_retry_seconds: crate::metadata::FAILED_RETRY_SECONDS,
        minimum_interval_seconds: crate::metadata::MINIMUM_REQUEST_INTERVAL_SECONDS,
    }
}

} // verus!
