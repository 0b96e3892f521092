[package]
name = "osboot"
version = "0.1.0"
edition = "2021"
publish = false

[dependencies]
uefi = "=0.41.0"
x86_64 = { version = "=0.15.5", default-features = false, features = ["instructions"] }
noto-sans-mono-bitmap = { version = "=0.3.2", features = ["unicode-specials"] }
log = "=0.4.35"
spinning_top = "=0.4.0"
conquer-once = "=0.4.0"
uart_16550 = "=0.9.0"
