[package]
name = "hermes"
version = "0.6.0"
edition = "2021"
publish = false

[dependencies]
clap = { version = "4", features = ["derive"] }
console = "*"
data-encoding = "2"
dirs = "*"
rpassword = "*"
serde = { version = "1", features = ["derive"] }
serde_json = "1"
url = "2"
urlencoding = "2"
magic-crypt = "*"
totp-lite = "*"
