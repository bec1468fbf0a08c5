[package]
name = "media_analysis"
version = "0.1.0"
edition = "2021"
publish = false

[dependencies]
base64 = "0.13"
mime_guess = "2"
image = "0.24"
rexif = "*"
lopdf = "*"
serde = { version = "1", features = ["derive"] }
serde_json = "1"
time = { version = "0.3", features = ["formatting"] }
ureq = { version = "3", features = ["json"] }
which = "*"
tempfile = "3"
