[package]
name = "cvr_melon_assistant"
version = "0.1.0"
edition = "2021"
publish = false

[dependencies]
md5 = "0.7"
regex = "1"
zip = { version = "2", default-features = false, features = ["deflate"] }
serde = { version = "1", features = ["derive"] }
serde_json = "1"
anyhow = "1"
dirs = "5"
once_cell = "1"
send_wrapper = "0.6"
tokio = { version = "1", features = ["rt-multi-thread", "macros"] }
reqwest = { version = "0.12", default-features = false, features = ["rustls-tls"] }
gtk4 = "0.9"
glib = "0.20"
gio = "0.20"
gdk4 = "0.9"
pango = "0.20"
