[package]
name = "tailor"
version = "0.1.0"
edition = "2021"
publish = false

[dependencies]
bollard = "0.18"
clap = { version = "4", features = ["derive"] }
futures-util = "0.3"
hex = "0.4"
indexmap = { version = "2", features = ["serde"] }
nix = { version = "0.29", features = ["user"] }
semver = { version = "1", features = ["serde"] }
serde = { version = "1", features = ["derive"] }
serde_json = "1"
serde_yaml_ng = "0.10"
sha2 = "0.10"
thiserror = "2"
tokio = { version = "1", features = ["macros", "rt-multi-thread", "sync"] }
tokio-util = "0.7"
tracing = "0.1"
tracing-subscriber = { version = "0.3", features = ["env-filter"] }
xxhash-rust = { version = "0.8", features = ["xxh3"] }
