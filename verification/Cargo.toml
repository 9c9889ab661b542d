[package]
name = "stashly"
version = "0.1.0"
edition = "2021"
publish = false

[dependencies]
url = "2"
percent-encoding = "2"
uuid = { version = "1", features = ["v4"] }
sha2 = "0.10"
hex = "0.4"
chrono = "0.4"
scraper = "*"
serde = { version = "1", features = ["derive"] }
serde_json = "1"
thiserror = "2"
rusqlite = { version = "*", features = ["bundled"] }
reqwest = { version = "0.12", default-features = false, features = ["rustls-tls", "stream"] }
tokio = { version = "1", features = ["sync", "fs", "io-util", "rt"] }
futures-util = "0.3"
zip = { version = "*", default-features = false, features = ["deflate"] }
windows-sys = { version = "*", features = ["Win32_Storage_FileSystem", "Win32_Storage_CloudFilters", "Win32_System_WindowsProgramming"] }

[dev-dependencies]
tempfile = "3"
