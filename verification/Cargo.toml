[package]
name = "tatami_fuzz"
version = "0.1.0"
edition = "2021"
publish = false

[dependencies]
aes-gcm = "0.10"
arbitrary = "1"
ed25519-dalek = "2"
libfuzzer-sys = "0.4"
rand_core = "0.6"
serde_json = "1"
sha2 = "0.10"
x25519-dalek = { version = "2", features = ["static_secrets"] }
