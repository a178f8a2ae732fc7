[package]
name = "keyforge"
version = "0.1.0"
edition = "2021"
publish = false

[dependencies]
argon2 = "0.5"
hmac = "0.12"
sha2 = "0.10"
url = "2"
zeroize = "1"
serde = { version = "1", features = ["derive"] }
serde_json = "1"
clap = { version = "4", features = ["derive"] }
clap_complete = "4"
dirs = "5"
arboard = "3"
ctrlc = "3"
rpassword = "7"
libc = "0.2"
