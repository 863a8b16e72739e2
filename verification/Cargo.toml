[package]
name = "raytracer"
version = "0.1.0"
edition = "2021"
publish = false

[dependencies]
anyhow = "1"
async-trait = "0.1"
clap = { version = "4", features = ["derive"] }
image = "0.25"
rand = "0.9"
rayon = "1"
regex = "1"
reqwest = { version = "0.12", default-features = false, features = ["rustls-tls"] }
serde = { version = "1", features = ["derive"] }
tempfile = "3"
tobj = "4"
tokio = { version = "1", features = ["macros", "rt-multi-thread"] }
toml = "0.8"
