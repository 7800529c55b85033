[package]
name = "gtfsfabrik"
version = "0.0.1"
edition = "2021"
publish = false

[dependencies]
xxhash-rust = { version = "0.8", features = ["xxh64"] }
dirs = "*"
polars = { version = "*", default-features = false, features = ["csv"] }
rkyv = "0.8"
rayon = "1"
serde = { version = "1", features = ["derive"] }
toml = "*"
thiserror = "*"
clap = { version = "4", features = ["derive"] }
console = "*"
zip = { version = "*", default-features = false, features = ["deflate"] }
rustyline = "*"
shell-words = "1"
geo = "*"
