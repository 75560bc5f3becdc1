[package]
name = "line_filter"
version = "0.1.0"
edition = "2021"
publish = false

[dependencies]
regex = "*"
serde = { version = "*", features = ["derive"] }
serde_json = "*"
actix-web = { version = "*", default-features = false, features = ["macros"] }
