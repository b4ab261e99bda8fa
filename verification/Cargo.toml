[package]
name = "carapace"
version = "0.1.0"
edition = "2021"
publish = false

[dependencies]
zeroize = "1"
sha2 = "0.10"
hex = "0.4"
serde = { version = "1", features = ["derive"] }
serde_json = "1"
bytes = "1"
tokio = { version = "1", default-features = false, features = ["rt", "macros", "net", "time"] }
hyper = { version = "1", features = ["http1", "server", "client"] }
hyper-util = { version = "0.1", default-features = false, features = ["tokio"] }
http = "1"
http-body-util = "0.1"
futures-core = "0.3"
async-stream = "0.3"
tracing = "0.1"
anyhow = "1"
time = { version = "0.3", features = ["formatting"] }
