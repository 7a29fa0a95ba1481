[package]
name = "cargo_mcp"
version = "0.1.0"
edition = "2021"
publish = false

[dependencies]
strsim = "*"
semver = "*"
crates-index = { version = "*", default-features = false, features = ["sparse"] }
http = "*"
reqwest = { version = "*", default-features = false }
tokio = { version = "*", features = ["full"] }
rustdoc-types = "*"
rustdoc-json = "*"
rustup-toolchain = "*"
serde = { version = "*", features = ["derive"] }
serde_json = "*"
cargo_metadata = "*"
tempfile = "*"
flate2 = "*"
tar = "*"
thiserror = "*"
