[package]
name = "qkd_simulator"
version = "0.1.0"
edition = "2021"
publish = false

[dependencies]
rand = "0.10"
rand_distr = "0.6"
hex = "0.4"
thiserror = "2"
tokio = { version = "1", features = ["full"] }
axum = { version = "0.8", features = ["ws"] }
diesel = { version = "2", features = ["postgres"] }
