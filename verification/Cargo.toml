[package]
name = "tunnelproto"
version = "0.1.0"
edition = "2021"
publish = false

[dependencies]
uuid = { version = "*", features = ["v4"] }
bytes = "*"
tokio = { version = "*", features = ["rt-multi-thread", "macros", "time"] }
quinn = "*"
rustls = { version = "*", default-features = false, features = ["ring", "logging", "std", "tls12"] }
rcgen = { version = "*", default-features = false, features = ["crypto", "pem", "ring"] }
pem = "*"
spdlog-rs = "*"
