[package]
name = "resonate"
version = "0.1.0"
edition = "2021"
publish = false

[dependencies]
anyhow = "1"
dbus = "0.9"
env_logger = "0.11"
gtk4 = { version = "0.9", features = ["v4_14"] }
ksni = "0.2"
libadwaita = { version = "0.7", features = ["v1_6"] }
lilv-sys = "0.2"
livi = "0.7"
log = "0.4"
lv2_raw = "0.2"
pipewire = "0.9"
rodio = { version = "0.20", default-features = false, features = ["symphonia-all"] }
serde = { version = "1", features = ["derive"] }
serde_json = "1"
