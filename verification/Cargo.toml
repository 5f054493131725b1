[package]
name = "routee_compass_core"
version = "0.1.0"
edition = "2021"
publish = false

[dependencies]
itertools = "0.14"
serde = { version = "1", features = ["derive"] }
serde_json = "1"
geo = "*"
uom = "*"
rayon = "1"
kdam = "*"
log = "0.4"
chrono = "0.4"
ordered-float = "*"
thiserror = "*"
