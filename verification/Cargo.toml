[package]
name = "nocturne_compiler"
version = "0.1.0"
edition = "2021"
publish = false

[dependencies]
syn = { version = "2", features = ["full", "extra-traits", "visit-mut"] }
proc-macro2 = "1"
quote = "1"
serde_json = "1"
midnight-zkir = "*"
midnight-transient-crypto = "*"
midnight-base-crypto = "*"
