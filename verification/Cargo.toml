[package]
name = "k8s_metrics"
version = "0.1.0"
edition = "2021"
publish = false

[dependencies]
axum = "=0.8.9"
k8s-openapi = { version = "=0.27.1", features = ["latest"] }
kube = "=3.1.0"
serde = { version = "*", features = ["derive"] }
tokio = { version = "=1.53.2", features = ["macros", "net", "rt-multi-thread"] }
