[package]
name = "imap"
version = "0.1.0"
edition = "2021"
publish = false

[dependencies]
imap-proto = "0.16"
nom = "7"
regex = "1"
chrono = "0.4"
base64 = "0.22"
bufstream = "0.1"
native-tls = "0.2"
rustls-connector = "*"
