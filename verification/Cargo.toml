[package]
name = "strict_types"
version = "0.1.0"
edition = "2021"
publish = false

[dependencies]
amplify = "*"
baid58 = "*"
blake3 = "*"
mnemonic = "*"
sha2 = "*"
strict_encoding = "*"
