[package]
name = "blobcache"
version = "0.1.0"
edition = "2021"
publish = false

[dependencies]
sled = "0.34"
crossbeam-utils = "0.8"
thiserror = "1"
