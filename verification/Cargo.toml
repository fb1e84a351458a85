[package]
name = "tmk_vmm"
version = "0.1.0"
edition = "2021"
publish = false

[dependencies]
anyhow = "=1.0.104"
clap = { version = "=4.6.7", features = ["derive"] }
fs-err = "=3.3.2"
futures = "=0.3.34"
log = "=0.4.35"
object = { version = "=0.36.7", default-features = false, features = ["read_core", "elf", "std", "unaligned"] }
tracing = "=0.1.44"
