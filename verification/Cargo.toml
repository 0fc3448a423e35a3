[package]
name = "demand_paging"
version = "0.1.0"
edition = "2021"
publish = false

[dependencies]
nix = { version = "=0.31.3", features = ["fs", "mman", "poll"] }
userfaultfd = { version = "=0.9.0", features = ["linux5_13", "linux5_7"] }
