//! The records the library exchanges with its callers.
use vstd::prelude::*;
use crate::weburl::opt_view;

verus! {

/// The persisted settings: the chosen library root and the consent recorded for it.
#[derive(Debug, Clone)]
pub struct AppSettings {
    pub library_root: Option<String>,
    pub library_root_opt_in_fingerprint: Option<String>,
}

/// How the storage of a library root was classified.
#[derive(Debug, Clone, Copy, PartialEq, Eq, Structural)]
pub enum StorageLocationKind {
    Local,
    Network,
    Sync,
    Unknown,
}

/// The storage kind of the configured root and whether a non-local root was confirmed.
#[derive(Debug, Clone)]
pub struct LibraryStorageSummary {
    pub kind: StorageLocationKind,
    pub non_local_confirmed: bool,
}

/// A root that needs confirmation, with the reasons shown to the user.
#[derive(Debug, Clone)]
pub struct LibraryRootCandidate {
    pub path: String,
    pub kind: StorageLocationKind,
    pub reasons: Vec<String>,
}

/// The answer to a request to change the library root.
#[derive(Debug, Clone)]
pub enum SetLibraryRootResult {
    Saved { library: LibrarySnapshot },
    ConfirmationRequired { candidate: LibraryRootCandidate },
}

/// One product of the local library.
#[derive(Debug, Clone)]
pub struct ProductSummary {
    pub item_id: i64,
    pub name: String,
    pub shop_name: String,
    pub product_url: String,
    pub thumbnail_url: Option<String>,
    pub local_path: Option<String>,
    pub latest_artifact_path: Option<String>,
    pub artifact_count: i64,
    pub last_downloaded_at: Option<String>,
}

/// The library as the local UI shows it.
#[derive(Debug, Clone)]
pub struct LibrarySnapshot {
    pub products: Vec<ProductSummary>,
    pub library_root: Option<String>,
    pub library_storage: Option<LibraryStorageSummary>,
}

/// A progress notification for one download.
#[derive(Debug, Clone)]
pub struct DownloadStatusEvent {
    pub request_id: String,
    pub item_id: Option<i64>,
    pub filename: Option<String>,
    pub state: DownloadState,
    pub message: String,
}

/// The closed set of states a download notification can carry.
#[derive(Debug, Clone, Copy, PartialEq, Eq, Structural)]
pub enum DownloadState {
    Downloading,
    Completed,
    Failed,
}

/// One file to download into the library. `signed_url` is the source address when the
/// library itself fetches the file, and `None` when the embedded browser transfers it.
#[derive(Debug, Clone)]
pub struct DownloadRequest {
    pub request_id: String,
    pub item_id: i64,
    pub variation_id: i64,
    pub downloadable_id: Option<i64>,
    pub product_name: Option<String>,
    pub shop_name: Option<String>,
    pub filename: String,
    pub signed_url: Option<String>,
}

/// The mathematical form of a `DownloadRequest`.
pub struct DownloadRequestView {
    pub request_id: Seq<char>,
    pub item_id: i64,
    pub variation_id: i64,
    pub downloadable_id: Option<i64>,
    pub product_name: Option<Seq<char>>,
    pub shop_name: Option<Seq<char>>,
    pub filename: Seq<char>,
    pub signed_url: Option<Seq<char>>,
}

impl View for DownloadRequest {
    type V = DownloadRequestView;

    open spec fn view(&self) -> DownloadRequestView {
        DownloadRequestView {
            request_id: self.request_id@,
            item_id: self.item_id,
            variation_id: self.variation_id,
            downloadable_id: self.downloadable_id,
            product_name: opt_view(self.product_name),
            shop_name: opt_view(self.shop_name),
            filename: self.filename@,
            signed_url: opt_view(self.signed_url),
        }
    }
}

/// Product metadata to store in the library index.
#[derive(Debug, Clone)]
pub struct UpsertProductInput {
    pub item_id: i64,
    pub name: String,
    pub shop_name: String,
    pub shop_subdomain: Option<String>,
    pub product_url: String,
    pub thumbnail_url: Option<String>,
}

/// The mathematical form of an `UpsertProductInput`.
pub struct ProductInputView {
    pub item_id: i64,
    pub name: Seq<char>,
    pub shop_name: Seq<char>,
    pub shop_subdomain: Option<Seq<char>>,
    pub product_url: Seq<char>,
    pub thumbnail_url: Option<Seq<char>>,
}

impl View for UpsertProductInput {
    type V = ProductInputView;

    open spec fn view(&self) -> ProductInputView {
        ProductInputView {
            item_id: self.item_id,
            name: self.name@,
            shop_name: self.shop_name@,
            shop_subdomain: opt_view(self.shop_subdomain),
            product_url: self.product_url@,
            thumbnail_url: opt_view(self.thumbnail_url),
        }
    }
}

} // verus!
