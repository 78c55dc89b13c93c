[package]
name = "elastic_reqwest"
version = "0.1.0"
edition = "2021"
publish = false

[dependencies]
url = "*"
reqwest = { version = "*", default-features = false, features = ["blocking"] }
elastic_requests = "*"
elastic_responses = "*"
serde = "*"
