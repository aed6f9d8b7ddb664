[package]
name = "freenet_wiki_common"
version = "0.1.0"
edition = "2021"
publish = false

[dependencies]
blake3 = "=1.8.7"
ed25519-dalek = { version = "=2.2.0", features = ["serde"] }
chrono = { version = "=0.4.45", features = ["serde"] }
serde = { version = "=1.0.229", features = ["derive"] }
ciborium = "=0.2.2"
freenet-stdlib = "0.1"
dioxus = { version = "=0.7.10", default-features = false, features = ["launch", "macro", "html", "signals", "hooks"] }
