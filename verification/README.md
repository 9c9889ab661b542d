# Stashly for BOOTH — verified core

Stashly for BOOTH keeps a local library of files bought or downloaded on BOOTH. This crate is
its core, written in Verus: every decision the application takes about remote input, the
file system layout and its own bookkeeping is an executable function with a contract that
Verus proves.

## Layout

- `src/` — the verified library.
  - `text.rs` — character-level helpers (trimming, splitting, decimal parsing and printing,
    the string order).
  - `weburl.rs` — URLs as plain values, and the trusted calls into `url`, `percent-encoding`
    and `uuid`.
  - `security.rs` — file-name sanitizing, path containment, allowed hosts, the product folder.
  - `deeplink.rs` — strict parsing of `booth-library-manager://download` links.
  - `metadata.rs` — which product pages are read, how `Retry-After` is read, how a page's Open
    Graph tags become product metadata (`scraper`, `chrono`).
  - `db.rs` — when metadata may be fetched (pause, cache, cooldown, minimum interval), and the
    defaults recorded for downloads.
  - `download.rs` — admission against cleanup, size limits, names from `Content-Disposition`,
    ZIP entry checks and extraction accounting, publishing names.
  - `storage.rs` — display and identity of library roots, classification, consent
    fingerprints (`sha2`, `hex`).
  - `webview.rs` — the embedded browser: navigation decisions, download intents, remembered
    locations, notifications and one-time folder actions.
  - `keyed.rs` — an ordered string-keyed store used by the in-memory records.
  - `cleanup.rs`, `commands.rs`, `updater.rs`, `model.rs`, `error.rs`.
- `tests/` — tests of the library, run against the real outside crates.
- `app/` — the Tauri application around the library: windows, commands, SQLite, HTTP, the
  file system and the Windows storage APIs.
