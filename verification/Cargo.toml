[package]
name = "metrolti"
version = "0.1.0"
edition = "2021"
publish = false

[dependencies]
rand = "0.8"
serde = { version = "1", features = ["derive"] }
serde_json = "1"
tungstenite = "*"
url = "*"
iron = "*"
mount = "*"
staticfile = "*"
handlebars-iron = "*"
