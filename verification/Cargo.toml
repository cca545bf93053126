[package]
name = "orbit"
version = "0.1.0"
edition = "2021"
publish = false

[dependencies]
clif = "*"
cliproc = "*"
colored = "2"
fs_extra = "1"
git2 = { version = "0.19", default-features = false }
glob = "0.3"
serde = { version = "1", features = ["derive"] }
serde_derive = "1"
tempfile = "3"
toml = { version = "0.8", features = ["preserve_order"] }
toml_edit = { version = "0.22", features = ["serde"] }
