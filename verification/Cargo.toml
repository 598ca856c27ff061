[package]
name = "deet"
version = "0.1.0"
edition = "2021"
publish = false

[dependencies]
nix = { version = "=0.31.3", features = ["ptrace", "signal", "process"] }
rustyline = "=19.0.0"
rand = "=0.10.3"
crossbeam-channel = "=0.5.17"
gimli = "=0.34.0"
object = "=0.40.0"
tokio = { version = "1", features = ["rt-multi-thread", "macros", "net", "io-util", "sync", "time"] }
http = "*"
httparse = "*"
clap = { version = "*", features = ["derive"] }
log = "*"
pretty_env_logger = "*"
