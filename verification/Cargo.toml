[package]
name = "horcrux"
version = "0.1.0"
edition = "2021"
publish = false

[dependencies]
tokio = { version = "1", features = ["rt-multi-thread", "macros", "net", "io-util", "signal", "time", "fs"] }
clap = { version = "4", features = ["derive"] }
crossbeam-channel = "0.5"
nix = { version = "0.29", features = ["process", "signal"] }
libc = "0.2"
chrono = "0.4"
