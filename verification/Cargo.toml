[package]
name = "faf-dns-bench"
version = "0.1.0"
edition = "2021"
publish = false

[dependencies]
clap = { version = "4", features = ["derive"] }
faf-syscall = "*"
mimalloc = { version = "*", default-features = false }
mio = { version = "*", features = ["net", "os-poll"] }
once_cell = "1"
regex = "1"
serde = { version = "1", features = ["derive"] }
serde_json = "1"
statrs = "*"
