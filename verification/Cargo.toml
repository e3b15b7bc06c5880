[package]
name = "quadratic_core"
version = "0.1.0"
edition = "2021"
publish = false

[dependencies]
anyhow = "1"
base64 = "0.21"
bigdecimal = "0.4"
bincode = "1"
chrono = { version = "0.4", features = ["serde"] }
dotenv = "0.15"
envy = "0.4"
lexicon_fractional_index = "*"
serde = { version = "1", features = ["derive"] }
serde_json = "1"
smallvec = "1"
tabled = "*"
tokio = { version = "1", features = ["sync"] }
tracing = "0.1"
unicode-case-mapping = "*"
uuid = { version = "1", features = ["v4"] }
