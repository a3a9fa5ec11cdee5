[package]
name = "mouse"
version = "0.1.0"
edition = "2021"
publish = false

[dependencies]
bsn1 = "1.0.0"
clap = "2.33"
counting-pointer = "*"
errno = "0.2"
log = "0.4"
rust-crypto = "0.2"
simplelog = "0.9.0"
spin-sync = "*"
