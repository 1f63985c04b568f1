[package]
name = "void"
version = "0.1.0"
edition = "2021"
publish = false

[dependencies]
scc = "*"
flate2 = "*"
lz4_flex = "*"
snap = "*"
brotli = "*"
zstd = "*"
weezl = "*"
tokio = { version = "*", features = ["rt-multi-thread", "net", "io-util", "time", "signal", "macros", "sync"] }
serde = { version = "*", features = ["derive"] }
serde_json = "*"
toml = "*"
dirs = "*"
futures-util = "*"
tokio-tungstenite = "*"
