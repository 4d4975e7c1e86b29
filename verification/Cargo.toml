[package]
name = "runling_bank"
version = "0.1.0"
edition = "2021"
publish = false

[dependencies]
num = "0.4"
sha1 = "0.10"
base16ct = { version = "0.2", features = ["alloc"] }
serde = { version = "1", features = ["derive"] }
quick-xml = { version = "*", features = ["serialize"] }
clap = { version = "4", features = ["derive"] }
