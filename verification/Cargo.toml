[package]
name = "cfg_matrix"
version = "0.1.0"
edition = "2021"
publish = false

[dependencies]
syn = { version = "=2.0.119", default-features = false, features = ["full", "parsing", "printing", "clone-impls"] }
quote = { version = "=1.0.47", default-features = false }
