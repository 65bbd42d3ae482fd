[package]
name = "aggios_core"
version = "0.1.0"
edition = "2021"
publish = false

[dependencies]
ark-bls12-381 = "0.3"
ark-ec = "0.3"
ark-ff = "0.3"
ark-poly = "0.3"
ark-poly-commit = "0.3"
ark-serialize = "0.3"
ark-std = "0.3"
axum = "0.7"
clap = { version = "4", features = ["derive"] }
hex = "0.4"
libc = "0.2"
merlin = "3"
rand = "0.8"
rayon = "1"
serde = { version = "1", features = ["derive"] }
serde_json = "1"
sha2 = "0.10"
thiserror = "1"
tokio = { version = "1", features = ["full"] }
tower-http = { version = "0.5", features = ["cors", "fs"] }
