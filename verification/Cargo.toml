[package]
name = "s3tui"
version = "0.1.0"
edition = "2021"
publish = false

[dependencies]
chrono = "0.4"
bytes = "1"
futures = "0.3"
crossterm = "0.25"
tui = "0.19"
rusoto_core = { version = "0.48", default-features = false, features = ["rustls"] }
rusoto_s3 = { version = "0.48", default-features = false, features = ["rustls"] }
