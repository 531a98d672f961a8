[package]
name = "blabla"
version = "0.1.1"
edition = "2021"
publish = false
rust-version = "1.95"

[dependencies]
async-trait = "=0.1.92"
serde = { version = "=1.0.229", features = ["derive"] }
serde_json = "=1.0.154"
serenity = "=0.12.5"
# teloxide-core needs takecell; its 0.1.2 release requires rustc 1.96, above this
# package's rust-version, so the 0.1 line is held at 0.1.1.
takecell = "=0.1.1"
teloxide = { version = "=0.13.0", default-features = false, features = ["rustls", "ctrlc_handler"] }
tokio = { version = "=1.54.1", features = ["full"] }
