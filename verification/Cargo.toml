[package]
name = "giantd"
version = "0.1.0"
edition = "2021"
publish = false

[dependencies]
regex = "1"
glob-match = "*"
semver = "1"
serde = { version = "1", features = ["derive"] }
serde_json = "1"
toml = "*"
tokio = { version = "1", features = ["full"] }
axum = { version = "*", features = ["ws"] }
hudsucker = "*"
hyper = { version = "1", features = ["full"] }
hyper-util = { version = "*", features = ["full"] }
http = "1"
http-body-util = "*"
hyperlocal = "*"
tower = "*"
rcgen = "*"
time = "*"
chrono = "*"
tracing = "*"
tracing-subscriber = { version = "*", features = ["env-filter"] }
dirs = "*"
clap = { version = "4", features = ["derive"] }
