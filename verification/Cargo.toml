[package]
name = "sphere_wars"
version = "0.1.0"
edition = "2021"
publish = false

[dependencies]
rand = "0.9"
rand_chacha = "0.9"
uuid = { version = "1", features = ["v4"] }
serde = { version = "1", features = ["derive"] }
bincode = { version = "2", features = ["serde"] }
tokio = { version = "1", features = ["macros", "net", "rt-multi-thread", "signal", "time"] }
clap = { version = "4", features = ["derive"] }
