[package]
name = "bpfman"
version = "0.1.0"
edition = "2021"
publish = false

[dependencies]
anyhow = "*"
aya = "*"
base16ct = { version = "*", features = ["alloc"] }
flate2 = "*"
hex = "*"
nix = { version = "*", features = ["net"] }
oci-distribution = { version = "*", default-features = false, features = ["rustls-tls"] }
sha2 = "*"
tar = "*"
