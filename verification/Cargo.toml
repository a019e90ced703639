[package]
name = "pyrepackager"
version = "0.1.0"
edition = "2021"
publish = false

[dependencies]
anyhow = "*"
cargo-lock = "*"
cargo_toml = "*"
cc = "*"
flate2 = "*"
glob = "*"
handlebars = "*"
once_cell = "*"
semver = "*"
serde = { version = "*", features = ["derive"] }
tar = "*"
tempdir = "*"
xz2 = "*"
zstd = "*"
