[package]
name = "parallel_zip"
version = "0.1.0"
edition = "2021"
publish = false

[dependencies]
flate2 = "1"
rayon = "1"

[dev-dependencies]
zip = { version = "2", default-features = false, features = ["deflate"] }
