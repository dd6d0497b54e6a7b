[package]
name = "pki"
version = "0.1.0"
edition = "2021"
publish = false

[dependencies]
der = { version = "0.8", features = ["oid"] }
digest = "0.10"
ed25519-dalek = { version = "2", default-features = false }
heapless = "0.8"
p256 = { version = "0.13", default-features = false, features = ["ecdsa", "sha256"] }
p384 = { version = "0.13", default-features = false, features = ["ecdsa", "sha384"] }
rsa = { version = "0.9", default-features = false, features = ["sha2"] }
sha2 = { version = "0.10", default-features = false }
