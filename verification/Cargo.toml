[package]
name = "vu_deploy"
version = "0.1.0"
edition = "2021"
publish = false

[dependencies]
byteorder = "1"
chrono = "0.4"
futures = "0.3"
hyper = { version = "0.14", features = ["full"] }
reqwest = { version = "0.11", default-features = false, features = ["blocking"] }
routerify = "3"
tokio = { version = "1", features = ["full"] }
uuid = { version = "1", features = ["v4"] }
