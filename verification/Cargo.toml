[package]
name = "git_ws"
version = "0.1.0"
edition = "2021"
publish = false

[dependencies]
async-trait = "=0.1.92"
clap = { version = "=4.6.7", features = ["derive"] }
colored = "=2.2.0"
git2 = { version = "=0.20.4", default-features = false }
serde = { version = "=1.0.229", features = ["derive"] }
serde_json = "=1.0.154"
tabled = "=0.22.0"
thiserror = "=1.0.69"
tokio = { version = "=1.54.1", features = ["fs", "macros", "rt-multi-thread", "sync"] }

[dev-dependencies]
tempfile = "=3.27.0"
