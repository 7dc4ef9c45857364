[package]
name = "ani-fr"
version = "0.1.0"
edition = "2021"
publish = false

[dependencies]
anyhow = "*"
chrono = "*"
colored = "*"
ctrlc = "*"
device_query = "*"
directories = "*"
indicatif = "*"
inquire = "*"
mouse-rs = "*"
open = "*"
rand = "*"
reqwest = { version = "0.12", default-features = false, features = ["blocking", "rustls-tls"] }
serde = { version = "*", features = ["derive"] }
serde_json = "*"
spinners = "*"
threadpool = "*"
