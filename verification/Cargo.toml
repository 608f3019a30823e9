[package]
name = "more_interesting"
version = "0.1.0"
edition = "2021"
publish = false

[dependencies]
v_htmlescape = "=0.17.0"
ammonia = "=4.2.4"
url = "=2.5.8"
uuid = "=1.29.0"
ring = "=0.17.14"
percent-encoding = "=2.3.2"
serde = { version = "=1.0.229", features = ["derive"] }
byteorder = "=1.5.0"
image = { version = "=0.25.10", default-features = false, features = ["png"] }
chrono = "=0.4.45"
chrono-humanize = "=0.2.3"
rand = "=0.8.8"

[dev-dependencies]
regex = "=1.13.1"
unicode-normalization = "0.1"
