[package]
name = "laundry_api"
version = "0.1.0"
edition = "2021"
publish = false

[dependencies]
actix-web = "4"
serde = { version = "1", features = ["derive"] }
time = { version = "0.3", features = ["formatting"] }
