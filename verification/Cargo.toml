[package]
name = "rust_diff_analyzer"
version = "0.1.0"
edition = "2021"
publish = false

[dependencies]
masterror = "=0.26.0"
proc-macro2 = { version = "=1.0.107", features = ["span-locations"] }
quote = "=1.0.47"
serde = { version = "=1.0.229", features = ["derive"] }
syn = { version = "=2.0.119", features = ["full", "extra-traits"] }
