[package]
name = "axum_subdomain_routing"
version = "0.1.0"
edition = "2021"
publish = false

[dependencies]
axum = "*"
tower = { version = "*", features = ["util"] }
futures = "*"
