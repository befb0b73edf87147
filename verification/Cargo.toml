[package]
name = "docmeta"
version = "0.1.0"
edition = "2021"
publish = false

[dependencies]
syn = { version = "=1.0.109", features = ["full"] }
quote = "=1.0.47"
proc-macro2 = "=1.0.107"
ecow = "=0.2.6"
comemo = "=0.4.0"
siphasher = "=1.0.4"

[dev-dependencies]
unscanny = "=0.1.0"
