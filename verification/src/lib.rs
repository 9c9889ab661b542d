//! The verified core of Stashly for BOOTH: the rules by which remote links, pages and
//! downloads are accepted, where files are stored, and the in-memory and persisted
//! bookkeeping around them.
pub mod cleanup;
pub mod commands;
pub mod db;
pub mod deeplink;
pub mod download;
pub mod error;
pub mod keyed;
pub mod metadata;
pub mod model;
pub mod security;
pub mod storage;
pub mod text;
pub mod updater;
pub mod weburl;
pub mod webview;
