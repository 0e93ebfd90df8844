[package]
name = "agent_rotary"
version = "0.1.0"
edition = "2021"
publish = false

[dependencies]
serde_json = "=1.0.154"
anyhow = "=1.0.104"
thiserror = "=2.0.21"
async-trait = "=0.1.92"
tracing = "=0.1.44"
tracing-subscriber = { version = "=0.3.23", features = ["env-filter"] }
reqwest = { version = "=0.12.28", default-features = false, features = ["json", "rustls-tls"] }
pyo3 = "=0.30.1"
pyo3-async-runtimes = { version = "=0.30.0", features = ["tokio-runtime"] }
