use std::collections::HashMap;

use stashly::db::{
    download_product_defaults, elapsed_seconds, fetch_policy, record_fetch_success, reserve_metadata_fetch,
    setting_value_i64, stored_byte_size, FetchRecord, MetadataFetchMode, MetadataFetchPolicy,
    MetadataFetchReservation, MetadataFetchSkipReason, MetadataFetchState,
};
use stashly::model::{DownloadRequest, UpsertProductInput};

const METADATA_POLICY: MetadataFetchPolicy = MetadataFetchPolicy {
    success_cache_seconds: 3_600,
    failed_retry_seconds: 600,
    minimum_interval_seconds: 10,
};

fn product_metadata(item_id: i64) -> UpsertProductInput {
    UpsertProductInput {
        item_id,
        name: "Example".into(),
        shop_name: "Shop".into(),
        shop_subdomain: Some("shop".into()),
        product_url: format!("https://booth.pm/ja/items/{item_id}"),
        thumbnail_url: Some("https://booth.pximg.net/example.png".into()),
    }
}

/// An in-memory stand-in for the metadata bookkeeping the index keeps.
#[derive(Default)]
struct Index {
    paused_until: Option<i64>,
    last_request_at: Option<i64>,
    records: HashMap<i64, FetchRecord>,
    products: HashMap<i64, UpsertProductInput>,
}

impl Index {
    fn reserve(&mut self, item_id: i64, now: i64, mode: MetadataFetchMode) -> MetadataFetchReservation {
        let mut state = MetadataFetchState {
            paused_until: self.paused_until,
            last_request_at: self.last_request_at,
            item: self.records.get(&item_id).copied(),
        };
        let cached = self
            .products
            .get(&item_id)
            .filter(|_| state.item.is_some_and(|r| r.last_success_at.is_some()))
            .cloned();
        let reservation = reserve_metadata_fetch(&mut state, cached, now, METADATA_POLICY, mode);
        self.paused_until = state.paused_until;
        self.last_request_at = state.last_request_at;
        if let Some(record) = state.item {
            self.records.insert(item_id, record);
        }
        reservation
    }

    fn record_success(&mut self, product: UpsertProductInput, now: i64) {
        let mut state = MetadataFetchState {
            paused_until: self.paused_until,
            last_request_at: self.last_request_at,
            item: self.records.get(&product.item_id).copied(),
        };
        record_fetch_success(&mut state, now);
        self.records.insert(product.item_id, state.item.unwrap());
        self.products.insert(product.item_id, product);
    }
}

#[test]
fn metadata_fetch_reservations_are_cached_and_rate_limited() {
    let mut index = Index::default();
    assert!(matches!(
        index.reserve(123, 1_000, MetadataFetchMode::Automatic),
        MetadataFetchReservation::Fetch { stale: None }
    ));
    assert!(matches!(
        index.reserve(456, 1_005, MetadataFetchMode::Automatic),
        MetadataFetchReservation::Skip { cached: None, reason: MetadataFetchSkipReason::MinimumInterval }
    ));

    index.record_success(product_metadata(123), 1_000);
    match index.reserve(123, 2_000, MetadataFetchMode::Automatic) {
        MetadataFetchReservation::Skip {
            cached: Some(cached),
            reason: MetadataFetchSkipReason::CachedOrCoolingDown,
        } => assert_eq!(cached.name, "Example"),
        reservation => panic!("unexpected reservation: {reservation:?}"),
    }
    assert!(matches!(
        index.reserve(123, 5_000, MetadataFetchMode::Automatic),
        MetadataFetchReservation::Fetch { stale: Some(_) }
    ));
}

#[test]
fn manual_metadata_fetch_bypasses_item_cache_but_keeps_global_interval() {
    let mut index = Index::default();
    assert!(matches!(
        index.reserve(123, 1_000, MetadataFetchMode::Automatic),
        MetadataFetchReservation::Fetch { stale: None }
    ));
    index.record_success(product_metadata(123), 1_000);

    assert!(matches!(
        index.reserve(123, 1_005, MetadataFetchMode::Manual),
        MetadataFetchReservation::Skip { cached: Some(_), reason: MetadataFetchSkipReason::MinimumInterval }
    ));
    assert!(matches!(
        index.reserve(123, 1_010, MetadataFetchMode::Manual),
        MetadataFetchReservation::Fetch { stale: Some(_) }
    ));
}

#[test]
fn metadata_fetch_pause_survives_new_reservations() {
    let mut index = Index { paused_until: Some(10_000), ..Index::default() };
    assert!(matches!(
        index.reserve(123, 5_000, MetadataFetchMode::Automatic),
        MetadataFetchReservation::Skip { cached: None, reason: MetadataFetchSkipReason::Paused }
    ));
    assert!(matches!(
        index.reserve(123, 10_000, MetadataFetchMode::Automatic),
        MetadataFetchReservation::Fetch { stale: None }
    ));
}

#[test]
fn failed_attempts_cool_down_automatic_fetches_only() {
    let mut index = Index::default();
    assert!(matches!(index.reserve(7, 0, MetadataFetchMode::Automatic), MetadataFetchReservation::Fetch { .. }));
    assert!(matches!(
        index.reserve(7, 599, MetadataFetchMode::Automatic),
        MetadataFetchReservation::Skip { reason: MetadataFetchSkipReason::CachedOrCoolingDown, .. }
    ));
    assert!(matches!(index.reserve(7, 599, MetadataFetchMode::Manual), MetadataFetchReservation::Fetch { .. }));
}

#[test]
fn helpers_of_the_index() {
    assert_eq!(elapsed_seconds(10, 3), 7);
    assert_eq!(elapsed_seconds(3, 10), 0);
    assert_eq!(elapsed_seconds(i64::MAX, i64::MIN), i64::MAX);
    assert_eq!(setting_value_i64(Some("-42")), Some(-42));
    assert_eq!(setting_value_i64(Some(" 42")), None);
    assert_eq!(setting_value_i64(None), None);
    assert_eq!(stored_byte_size(u64::MAX), i64::MAX);
    assert_eq!(stored_byte_size(5), 5);
    let policy = fetch_policy();
    assert_eq!(policy.success_cache_seconds, 2_592_000);
    assert_eq!(policy.minimum_interval_seconds, 10);
}

#[test]
fn unknown_products_get_placeholder_names() {
    let request = DownloadRequest {
        request_id: "request-1".into(),
        item_id: 123,
        variation_id: 456,
        downloadable_id: None,
        product_name: None,
        shop_name: Some("Shop".into()),
        filename: "package.zip".into(),
        signed_url: None,
    };
    let defaults = download_product_defaults(&request);
    assert_eq!(defaults.name, "BOOTH item 123");
    assert_eq!(defaults.shop_name, "Shop");
    assert_eq!(defaults.product_url, "https://booth.pm/ja/items/123");
}
