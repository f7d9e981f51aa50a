[package]
name = "rustshooter"
version = "0.1.0"
edition = "2021"
publish = false

[dependencies]
getrandom = "0.3"
ruzstd = "*"
tar = "*"
serde = { version = "1", features = ["derive"] }
toml = "*"
ureq = "3"
