[package]
name = "echtvar"
version = "0.1.0"
edition = "2021"
publish = false

[dependencies]
zip = { version = "0.6", default-features = false, features = ["deflate"] }
json5 = "0.4"
serde_json = "1"

[dev-dependencies]
stream-vbyte = "0.4"
