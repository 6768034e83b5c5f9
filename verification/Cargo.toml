[package]
name = "gitkat"
version = "0.5.1"
edition = "2021"
publish = false

[dependencies]
anyhow = "=1.0.104"
clap = { version = "=4.6.7", features = ["derive"] }
gix = { version = "=0.90.0", default-features = false, features = ["sha1"] }
gix-actor = "=0.44.1"
gix-hash = { version = "=0.28.1", features = ["sha1"] }
gix-object = { version = "=0.66.1", features = ["sha1"] }
globset = "=0.4.21"
regex = "=1.13.1"
reqwest = { version = "=0.13.5", default-features = false, features = ["blocking", "json", "query", "rustls"] }
serde = { version = "=1.0.229", features = ["derive"] }
sha2 = "=0.11.1"
tempfile = "=3.27.0"
walkdir = "=2.5.0"
