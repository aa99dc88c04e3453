[package]
name = "cellsim"
version = "0.1.0"
edition = "2021"
publish = false

[dependencies]
rand = "0.8"
rustc-hash = "1.1"
serde = { version = "1", features = ["derive"] }
bincode = "1.3"
ctrlc = "3"
minifb = "*"
pprof = { version = "*", features = ["flamegraph"] }
