[package]
name = "add_pr_comment"
version = "0.1.0"
edition = "2021"
publish = false

[dependencies]
anyhow = "1"
async-trait = "0.1"
log = "0.4"
percent-encoding = "2.3"
reqwest = { version = "0.12", default-features = false, features = ["json"] }
schemars = "1"
serde = { version = "1", features = ["derive"] }
serde_json = "1"
