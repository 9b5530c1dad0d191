[package]
name = "canary"
version = "0.1.0"
edition = "2021"
publish = false

[dependencies]
sha2 = "=0.10.9"
png = "=0.18.1"
gltf = { version = "=1.4.1", default-features = false, features = ["utils"] }
fluent = "=0.17.0"
fluent-langneg = "=0.13.1"
fluent-syntax = "=0.12.0"
unic-langid = "=0.9.6"
tracing = "=0.1.44"
tracing-subscriber = { version = "=0.3.23", features = ["fmt", "env-filter"] }
