[package]
name = "ckbtc_minter"
version = "0.1.0"
edition = "2021"
publish = false

[dependencies]
sha2 = "0.10"
ripemd = "0.1"
candid = "0.10"

[dev-dependencies]
bitcoin = "0.29"
hex = "0.4"
simple_asn1 = "0.6"
im = "15"
rpds = "1"
