//! The library's error type.
use vstd::prelude::*;

verus! {

/// Why an operation of the library was refused or failed.
#[derive(Debug)]
pub enum AppError {
    MissingAppDataDirectory,
    MissingLibraryRoot,
    InvalidLibraryRoot(String),
    LibraryRootUnavailable(String),
    NonLocalLibraryRootNotConfirmed,
    LibraryRootContainsArtifacts,
    ProductNotFound,
    MetadataFetchPaused,
    MetadataFetchTooSoon,
    MetadataFetchUnavailable,
    PathOutsideLibrary,
    RejectedDownloadUrl,
    UnsafeFilename,
    DownloadTooLarge,
    DownloadsInProgress,
    LibraryCleanupInProgress,
    UnsupportedDeepLink,
    Archive(String),
    Database(String),
    Io(String),
    Network(String),
    Url(String),
    InvalidPayload(String),
}

/// The mathematical form of an `AppError`: the same variants over character sequences.
pub enum ErrorView {
    MissingAppDataDirectory,
    MissingLibraryRoot,
    InvalidLibraryRoot(Seq<char>),
    LibraryRootUnavailable(Seq<char>),
    NonLocalLibraryRootNotConfirmed,
    LibraryRootContainsArtifacts,
    ProductNotFound,
    MetadataFetchPaused,
    MetadataFetchTooSoon,
    MetadataFetchUnavailable,
    PathOutsideLibrary,
    RejectedDownloadUrl,
    UnsafeFilename,
    DownloadTooLarge,
    DownloadsInProgress,
    LibraryCleanupInProgress,
    UnsupportedDeepLink,
    Archive(Seq<char>),
    Database(Seq<char>),
    Io(Seq<char>),
    Network(Seq<char>),
    Url(Seq<char>),
    InvalidPayload(Seq<char>),
}

impl View for AppError {
    type V = ErrorView;

    open spec fn view(&self) -> ErrorView {
        match self {
            AppError::MissingAppDataDirectory => ErrorView::MissingAppDataDirectory,
            AppError::MissingLibraryRoot => ErrorView::MissingLibraryRoot,
            AppError::InvalidLibraryRoot(p) => ErrorView::InvalidLibraryRoot(p@),
            AppError::LibraryRootUnavailable(p) => ErrorView::LibraryRootUnavailable(p@),
            AppError::NonLocalLibraryRootNotConfirmed => ErrorView::NonLocalLibraryRootNotConfirmed,
            AppError::LibraryRootContainsArtifacts => ErrorView::LibraryRootContainsArtifacts,
            AppError::ProductNotFound => ErrorView::ProductNotFound,
            AppError::MetadataFetchPaused => ErrorView::MetadataFetchPaused,
            AppError::MetadataFetchTooSoon => ErrorView::MetadataFetchTooSoon,
            AppError::MetadataFetchUnavailable => ErrorView::MetadataFetchUnavailable,
            AppError::PathOutsideLibrary => ErrorView::PathOutsideLibrary,
            AppError::RejectedDownloadUrl => ErrorView::RejectedDownloadUrl,
            AppError::UnsafeFilename => ErrorView::UnsafeFilename,
            AppError::DownloadTooLarge => ErrorView::DownloadTooLarge,
            AppError::DownloadsInProgress => ErrorView::DownloadsInProgress,
            AppError::LibraryCleanupInProgress => ErrorView::LibraryCleanupInProgress,
            AppError::UnsupportedDeepLink => ErrorView::UnsupportedDeepLink,
            AppError::Archive(m) => ErrorView::Archive(m@),
            AppError::Database(m) => ErrorView::Database(m@),
            AppError::Io(m) => ErrorView::Io(m@),
            AppError::Network(m) => ErrorView::Network(m@),
            AppError::Url(m) => ErrorView::Url(m@),
            AppError::InvalidPayload(m) => ErrorView::InvalidPayload(m@),
        }
    }
}

/// The result type of the library's fallible operations.
pub type AppResult<T> = Result<T, AppError>;

} // verus!
