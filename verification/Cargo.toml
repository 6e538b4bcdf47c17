[package]
name = "capture_replay"
version = "0.1.0"
edition = "2021"
publish = false

[dependencies]
endio = "*"
zip = { version = "*", default-features = false, features = ["deflate"] }
rusqlite = { version = "*", features = ["bundled"] }
