[package]
name = "sisterm"
version = "0.1.0"
edition = "2021"
publish = false

[dependencies]
regex = "1"
chrono = "0.4"
clap = { version = "4", features = ["derive"] }
serde = { version = "1", features = ["derive"] }
toml = "0.8"
libc = "0.2"
nix = { version = "0.26", default-features = false, features = ["term", "signal"] }
rpassword = "7"
rustyline = "10"
serialport = { version = "4", default-features = false }
ssh2 = "0.9"
tokio = { version = "1", features = ["rt-multi-thread", "macros"] }
