[package]
name = "targeted_bulk"
version = "0.1.0"
edition = "2021"
publish = false

[dependencies]
rayon = "1"
evenio = "*"
derive_more = { version = "*", features = ["deref", "deref_mut", "constructor"] }
