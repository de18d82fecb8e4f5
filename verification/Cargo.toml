[package]
name = "vault"
version = "0.1.0"
edition = "2021"
publish = false

[dependencies]
aes = "=0.8.4"
ctr = "=0.9.2"
pbkdf2 = "=0.12.2"
sha2 = "=0.10.9"
rand = "=0.8.5"
crc32fast = "=1.5.4"
hex = "=0.4.3"
walkdir = "=2.5.0"
filetime = "=0.2.29"
eframe = { version = "=0.29.1", default-features = false, features = ["glow", "x11", "default_fonts"] }
egui = "=0.29.1"
rfd = { version = "=0.15.4", default-features = false, features = ["xdg-portal", "tokio"] }
