[package]
name = "rvc_realtime"
version = "0.1.0"
edition = "2021"
publish = false

[dependencies]
anyhow = "=1.0.104"
eframe = { version = "=0.31.1", default-features = false, features = ["default_fonts", "glow", "x11"] }
half = "=2.7.1"
libloading = "=0.8.9"
ort = { version = "=2.0.0-rc.12", default-features = false, features = ["std", "half", "load-dynamic", "cuda", "api-24"] }
rand = "=0.9.5"
rand_distr = "=0.5.1"
realfft = "=3.5.1"
rfd = { version = "=0.15.4", default-features = false, features = ["xdg-portal", "tokio"] }
safetensors = "=0.6.2"
serde = { version = "=1.0.229", features = ["derive"] }
serde_json = "=1.0.154"
sha2 = "=0.10.9"
windows-sys = { version = "=0.59.0", features = ["Win32_Foundation", "Win32_UI_WindowsAndMessaging", "Win32_System_LibraryLoader"] }
zip = { version = "=2.6.1", default-features = false, features = ["deflate"] }
