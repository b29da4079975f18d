[package]
name = "laterite_ags4"
version = "0.1.0"
edition = "2021"
publish = false

[dependencies]
encoding_rs = "0.8"
laterite-ags4-core = "=0.13.2"
laterite-ags4-reference = "=0.13.1"
laterite-ags4-types = "=0.12.0"
laterite-ags4-validator = "=0.14.0"
libduckdb-sys = { version = "~1.10503.1", default-features = false, features = ["loadable-extension"] }
quack-rs = { version = "=0.20.0", features = ["duckdb-1-5"] }
serde_json = "1"
