[package]
name = "iot2db"
version = "0.1.0"
edition = "2021"
publish = false

[dependencies]
async-trait = "0.1"
futures = "0.3"
indexmap = { version = "2", features = ["serde"] }
postgres-protocol = "0.6"
regex = "1"
reqwest = { version = "0.12", default-features = false, features = ["json"] }
rumqttc = { version = "*", default-features = false }
serde = { version = "1", features = ["derive"] }
serde_json = "1"
serde_with = { version = "3", features = ["indexmap_2"] }
shlex = "1"
systemd = "*"
tokio = { version = "1", features = ["rt-multi-thread", "macros", "sync", "time", "process"] }
tokio-postgres = "0.7"
tokio-stream = { version = "0.1", features = ["sync"] }
toml = "0.8"
