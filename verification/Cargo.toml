[package]
name = "zergling"
version = "0.1.0"
edition = "2021"
publish = false

[dependencies]
byteorder = "=1.5.0"
crc = "=1.8.1"
rand = "=0.4.6"
clap = "=2.34.0"
mime_guess = "=1.8.8"
serde_json = "=1.0.154"
libflate = "=0.1.27"
url = "=1.7.2"
multipart = { version = "0.13", default-features = false, features = ["server"] }
