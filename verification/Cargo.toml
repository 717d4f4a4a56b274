[package]
name = "local-stack-core"
version = "0.1.0"
edition = "2021"
publish = false

[dependencies]
directories = "6"
fs2 = "0.4"
futures-util = "0.3"
reqwest = { version = "0.12", default-features = false, features = ["json", "stream", "rustls-tls"] }
semver = "1"
serde = { version = "1", features = ["derive"] }
serde_json = "1"
sha2 = "0.10"
sysinfo = "0.33"
thiserror = "2"
tokio = { version = "1", features = ["fs", "io-util", "process", "sync", "time", "rt-multi-thread", "macros"] }
which = "7"
zip = { version = "2", default-features = false, features = ["deflate"] }
zstd = "0.13"

[dev-dependencies]
tempfile = "3"
