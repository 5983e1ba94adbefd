[package]
name = "wispha"
version = "0.1.0"
edition = "2021"
publish = false

[dependencies]
unicode-segmentation = "*"
ignore = "*"
serde = { version = "*", features = ["derive"] }
serde_json = "*"
toml = "*"
structopt = "*"
console = "*"
git2 = "*"
