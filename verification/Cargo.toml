[package]
name = "swift_mt"
version = "0.1.0"
edition = "2021"
publish = false

[dependencies]
regex = "*"
tl = "*"
reqwest = { version = "*", default-features = false, features = ["blocking", "cookies"] }
