[package]
name = "pickles"
version = "0.1.0"
edition = "2021"
publish = false

[dependencies]
ark-ec = "=0.5.0"
ark-ff = "=0.5.0"
ark-pallas = "=0.5.0"
ark-poly = "=0.5.0"
ark-serialize = "=0.5.0"
ark-vesta = "=0.5.0"
base64 = "=0.22.1"
rayon = "=1.12.0"
serde = { version = "=1.0.229", features = ["derive"] }
serde_json = "=1.0.154"

[dev-dependencies]
rand_chacha = "=0.3.1"
