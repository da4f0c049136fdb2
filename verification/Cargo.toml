[package]
name = "gitattr_filter"
version = "0.1.0"
edition = "2021"
publish = false

[dependencies]
gix = { version = "=0.88.0", default-features = false, features = ["attributes", "sha1"] }
thiserror = "*"
