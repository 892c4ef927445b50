[package]
name = "alacritree"
version = "0.1.0"
edition = "2021"
publish = false

[dependencies]
png = "=0.18.1"
egui = { version = "=0.37.0", default-features = false }
gethostname = "=1.1.0"
serde_json = "=1.0.154"
log = "=0.4.35"
vte = "=0.15.0"
libc = "=0.2.191"
windows-sys = { version = "=0.61.2", features = ["Win32_Foundation", "Win32_System_Threading"] }
