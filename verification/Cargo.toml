[package]
name = "searproxy"
version = "0.1.0"
edition = "2021"
publish = false

[dependencies]
actix-web = { version = "4", default-features = false, features = ["macros", "compress-gzip"] }
base64 = "0.21"
bytes = "1"
clap = { version = "4", features = ["derive", "env"] }
fern = "0.6"
futures-util = "0.3"
hex = "0.4"
hmac = "0.12"
htmlentity = "1"
log = "0.4"
lol_html = "1"
markup = "0.13"
mime = "0.3"
once_cell = "1"
regex = "1"
reqwest = { version = "0.11", default-features = false, features = ["brotli", "deflate", "gzip", "rustls-tls", "stream", "trust-dns"] }
serde = { version = "1", features = ["derive"] }
serde_qs = "0.12"
sha2 = "0.10"
thiserror = "1"
tracing = "0.1"
tracing-actix-web = "0.7"
url = "2"
