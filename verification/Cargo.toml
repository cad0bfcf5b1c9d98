[package]
name = "provision"
version = "0.1.0"
edition = "2021"
publish = false

[dependencies]
async-trait = "=0.1.92"
serde = { version = "=1.0.229", features = ["derive"] }
serde_json = "=1.0.151"
sys-mount = { version = "=3.1.0", default-features = false }
tokio = { version = "=1.53.2", features = ["macros", "process", "rt-multi-thread", "time"] }
