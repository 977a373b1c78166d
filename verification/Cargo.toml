[package]
name = "uhtml_pics_parse"
version = "0.1.0"
edition = "2021"
publish = false

[dependencies]
image = { version = "0.24", default-features = false, features = ["jpeg", "png", "gif", "bmp"] }
anyhow = "1"
thiserror = "1"
walkdir = "2"
clap = { version = "4", features = ["derive"] }
