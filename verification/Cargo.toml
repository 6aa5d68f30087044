[package]
name = "monte_cardo"
version = "0.1.0"
edition = "2021"
publish = false

[dependencies]
rand = "0.10"
rand_distr = "*"
ratatui = "0.29"
crossterm = "0.28"
thiserror = "2"
serde = { version = "1", features = ["derive"] }
smallvec = "1"
quick_cache = "*"
web-time = "1"
