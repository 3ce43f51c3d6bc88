[package]
name = "yespanda"
version = "0.1.0"
edition = "2021"
publish = false

[dependencies]
anyhow = "1"
cairo-rs = "*"
poppler-rs = "*"
relm4 = { version = "*", features = ["libadwaita", "gnome_46"] }
serde = { version = "1", features = ["derive"] }
toml = "*"
