[package]
name = "httpie"
version = "0.1.0"
edition = "2021"
publish = false

[dependencies]
anyhow = "1"
clap = "=3.0.0-beta.4"
clap_derive = "=3.0.0-beta.4"
colored = "=2.2.0"
jsonxf = "=1.1.1"
mime = "=0.3.17"
reqwest = { version = "=0.11.27", features = ["json"] }
tokio = { version = "1", features = ["full"] }
