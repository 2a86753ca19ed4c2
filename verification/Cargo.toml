[package]
name = "hrtf_synth"
version = "0.1.0"
edition = "2021"
publish = false

[dependencies]
nalgebra = { version = "=0.33.3", features = ["serde-serialize"] }
rustfft = "=6.4.1"
num-complex = "=0.4.6"
hound = "=3.5.1"
clap = { version = "=4.6.7", features = ["derive"] }
anyhow = "=1.0.104"
thiserror = "=1.0.69"
indicatif = "=0.17.11"
rayon = "=1.12.0"
serde = { version = "=1.0.229", features = ["derive"] }
