[package]
name = "sockrocket-core"
version = "0.1.0"
edition = "2021"
publish = false

[dependencies]
aes = "=0.8.4"
aes-gcm = "=0.10.3"
anyhow = "1"
base64 = "=0.22.1"
chacha20poly1305 = "=0.10.1"
crc32fast = "=1.5.4"
etherparse = "*"
h3 = "*"
h3-quinn = "*"
hex = "=0.4.3"
hmac = "=0.12.1"
http = "1"
ipstack = "*"
lru = "=0.19.0"
md-5 = "=0.10.6"
qrcode = { version = "=0.14.1", default-features = false }
quinn = "0.11"
rand = "0.9"
rustls = { version = "0.23", default-features = false, features = ["ring", "std"] }
sha1 = "=0.10.7"
sha2 = "=0.10.9"
shadowsocks = { version = "=1.25.0", default-features = false, features = ["aead-cipher", "aead-cipher-2022"] }
socket2 = "0.5"
sysproxy = "=0.3.0"
tokio = { version = "1", features = ["full"] }
tracing = "0.1"
tun = { version = "*", features = ["async"] }
url = "=2.5.8"
uuid = { version = "=1.29.0", features = ["v4"] }
webpki-roots = "1"
