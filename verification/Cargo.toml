[package]
name = "kot"
version = "0.1.0"
edition = "2021"
publish = false

[dependencies]
ansi-to-tui = { version = "=8.0.1", default-features = false }
axum = { version = "=0.8.9", default-features = false, features = ["http1", "json", "query", "tokio"] }
chrono = { version = "=0.4.45", default-features = false, features = ["std"] }
clap = { version = "=4.6.7", default-features = false, features = ["std", "help", "usage", "derive", "env"] }
crossterm = { version = "=0.29.0", features = ["event-stream"] }
futures-util = { version = "=0.3.34", default-features = false, features = ["std"] }
getrandom = "=0.2.17"
hex = "=0.4.3"
http = "=1.5.0"
parity-scale-codec = { version = "=3.7.5", features = ["derive"] }
ratatui = { version = "=0.30.2", default-features = false, features = ["crossterm"] }
ratatui-textarea = "=0.9.4"
rcgen = { version = "=0.14.10", default-features = false, features = ["ring"] }
reqwest = { version = "=0.12.28", default-features = false, features = ["json", "rustls-tls-manual-roots-no-provider"] }
rustls = { version = "=0.23.46", default-features = false, features = ["ring", "std"] }
serde = { version = "=1.0.229", features = ["derive"] }
serde_json = "=1.0.154"
sp-core = { version = "=43.0.0", default-features = false, features = ["full_crypto"] }
tokio = { version = "=1.54.1", features = ["fs", "io-util", "macros", "net", "process", "rt-multi-thread", "sync", "time"] }
tokio-rustls = { version = "=0.26.6", default-features = false, features = ["ring"] }
x509-parser = "=0.18.1"
