[package]
name = "glob_hasher"
version = "0.1.0"
edition = "2021"
publish = false

[dependencies]
gix = { version = "=0.88.0", default-features = false, features = ["sha1"] }
hex = "=0.4.3"
xxhash-rust = { version = "=0.8.19", features = ["xxh3"] }
rayon = "=1.12.0"
dashmap = "=6.2.1"
