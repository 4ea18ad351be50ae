[package]
name = "kdeocr"
version = "0.1.0"
edition = "2021"
publish = false

[dependencies]
clap = { version = "4", features = ["derive"] }
clipper2-rust = "*"
comfy-table = "*"
image = { version = "0.25", default-features = false, features = ["png", "jpeg"] }
imageproc = { version = "*", default-features = false }
ort = { version = "2.0.0-rc.11", default-features = false, features = ["std", "load-dynamic"] }
ruzstd = "*"
serde = { version = "1", features = ["derive"] }
sha2 = "*"
tar = "0.4"
tempfile = "3"
thiserror = "2"
toml = "*"
zbus = "5"
