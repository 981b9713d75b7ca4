[package]
name = "pwdft"
version = "0.1.0"
edition = "2021"
publish = false

[dependencies]
mendeleev = "*"
faer = "0.24"
dyn-stack = "*"
nalgebra = "*"
ndarray = "*"
ndrustfft = "*"
num-complex = "*"
puruspe = "*"
rayon = "*"
serde = { version = "1", features = ["derive"] }
serde_yaml_ng = "*"
toml = "*"
thiserror = "*"
log = "*"
env_logger = "*"
clap = { version = "4", features = ["derive"] }
indicatif = "*"
