[package]
name = "cipher"
version = "0.1.0"
edition = "2021"
publish = false

[dependencies]
aws-config = "1"
aws-esdk = "1"
aws-sdk-kms = "1"
base64 = "0.22"
im = "15"
rand = "0.9"
scopeguard = "1"
trpl = "0.2"

[dev-dependencies]
regex = "1"
