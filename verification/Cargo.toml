[package]
name = "tiny_dns"
version = "0.1.0"
edition = "2021"
publish = false

[dependencies]
bitvec = "1"
log = "0.4"
nom = "7"
rand = "0.8"
tokio = { version = "1", features = ["macros", "net", "rt-multi-thread"] }
