[package]
name = "joycore_x_lib"
version = "0.1.0"
edition = "2021"
publish = false

[dependencies]
anyhow = "1"
async-trait = "0.1"
chrono = { version = "0.4", features = ["serde"] }
futures-util = "0.3"
hex = "0.4"
hidapi = "2"
log = "0.4"
once_cell = "1"
reqwest = { version = "0.12", default-features = false, features = ["json", "stream"] }
semver = { version = "1", features = ["serde"] }
serde = { version = "1", features = ["derive"] }
serde_json = "1"
serialport = { version = "4", default-features = false }
sha2 = "0.10"
thiserror = "1"
tokio = { version = "1", features = ["macros", "rt", "rt-multi-thread", "sync", "time", "fs", "io-util"] }
uuid = { version = "1", features = ["v4", "serde"] }
