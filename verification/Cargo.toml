[package]
name = "nautilus_ovpn"
version = "0.1.0"
edition = "2021"
publish = false

[dependencies]
sha2 = "0.10"
minijinja = "2"
serde = { version = "1", features = ["derive"] }
toml = "0.8"
zbus = "5"
tokio = { version = "1", features = ["rt-multi-thread"] }
uuid = { version = "1", features = ["v4"] }
gio = "0.20"
gtk4 = "0.9"
glib-sys = "0.20"
gobject-sys = "0.20"
libc = "0.2"
gettext-rs = { version = "0.7", features = ["gettext-system"] }
