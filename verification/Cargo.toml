[package]
name = "response_cache"
version = "0.1.0"
edition = "2021"
publish = false

[dependencies]
flate2 = "*"
brotli = "*"
zstd = "*"
duration-str = "*"
httpdate = "*"
http = "*"
http-body = "*"
bytes = "*"
tower = "*"
tracing = "*"
kutil = { version = "*", features = ["http", "transcoding"] }
