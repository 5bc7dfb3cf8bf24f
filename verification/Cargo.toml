[package]
name = "option_pricer"
version = "0.1.0"
edition = "2021"
publish = false

[dependencies]
chrono = "0.4"
csv = "1"
rand = "0.8"
rand_distr = "0.4"
rayon = "1"
reqwest = { version = "0.11", features = ["blocking"] }
serde = { version = "1", features = ["derive"] }
time = "0.1"
toml = "0.5"
