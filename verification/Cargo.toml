[package]
name = "pasta_msm"
version = "0.1.0"
edition = "2021"
publish = false

[dependencies]
pasta_curves = { version = "=0.5.2", features = ["repr-c"] }
rand = "=0.8.8"
rand_chacha = "=0.3.1"
rayon = "=1.12.0"
sppark = "=0.1.16"
semolina = "=0.1.5"
abomonation = "=0.7.3"
abomonation_derive_ng = "=0.1.0"
paste = "=1.0.15"
