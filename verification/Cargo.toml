[package]
name = "grid2048"
version = "0.1.0"
edition = "2021"
publish = false

[dependencies]
rand = "0.8"
smallvec = "1"
winapi = { version = "0.3", features = ["libloaderapi", "minwindef", "windef", "wingdi", "winnt", "winuser"] }
