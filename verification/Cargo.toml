[package]
name = "i6"
version = "0.1.0"
edition = "2021"
publish = false

[dependencies]
aes-gcm = "0.10"
argon2 = "0.5"
rand = "0.8"
shlex = "1"
zstd = "0.13"
uuid = { version = "1", features = ["v4"] }
tar = "0.4"
walkdir = "2"
rpassword = "7"
clap = { version = "4", features = ["cargo"] }
tokio = { version = "1", features = ["macros", "rt-multi-thread"] }
warp = { version = "0.3", features = ["tls"] }
openssl = "0.10"
tracing-subscriber = "0.3"
rustyline = "14"
rustyline-derive = "0.10"
chrono = "0.4"
whoami = "1"
lazy_static = "1"
