[package]
name = "clippy_native"
version = "0.1.0"
edition = "2021"
publish = false

[dependencies]
cairo-rs = "0.18"
dirs = "5"
gdk = "0.18"
glib = "0.18"
gtk = "0.18"
notify = "6"
serde = { version = "1", features = ["derive"] }
serde_json = "1"
webp-animation = "*"
