[package]
name = "riamify"
version = "0.1.0"
edition = "2021"
publish = false

[dependencies]
aho-corasick = "0.7"
csv = "1"
kana = "*"
encoding_rs = "0.8"
serde = { version = "1", features = ["derive"] }
serde_yaml = "0.8"
failure = "0.1"
hound = "3"
libloading = "0.5"
libsamplerate = "*"
mecab = "*"
chrono = "0.4"
url = "2"
