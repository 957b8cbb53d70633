[package]
name = "khawrizm"
version = "0.1.0"
edition = "2021"
publish = false

[dependencies]
regex = "1"
flate2 = "1"
pqcrypto-dilithium = "0.5"
pqcrypto-sphincsplus = "0.6"
pqcrypto-traits = "0.3"
memmap2 = "0.9"
rayon = "1"
zip = { version = "0.6", default-features = false, features = ["deflate"] }
serde = { version = "1", features = ["derive"] }
serde_json = "1"
ureq = { version = "2", default-features = false, features = ["json"] }
tokio = { version = "1", features = ["rt-multi-thread", "macros", "fs"] }
