[package]
name = "gabe"
version = "0.1.0"
edition = "2021"
publish = false

[dependencies]
serde_json = "1"
convert_case = "*"
rand = "0.9"
jiff = "0.2"
tokio = { version = "1", features = ["rt-multi-thread", "macros"] }
reqwest = { version = "0.12", features = ["blocking", "json"] }
rusqlite = { version = "*", features = ["bundled"] }
directories = "*"
preferences = "*"
rayon = "1"
futures = "0.3"
anyhow = "1"
simple-error = "*"
serde = { version = "1", features = ["derive"] }
bytes = "1"
color-eyre = "0.6"
