[package]
name = "diskpine"
version = "0.1.0"
edition = "2021"
publish = false

[dependencies]
rand = "0.8"
rand_distr = "0.4"
regex = "1"
clap = { version = "4", features = ["derive"] }
dotenv = "0.15"
log = "0.4"
thiserror = "1"
