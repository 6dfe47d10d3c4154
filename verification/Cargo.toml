[package]
name = "ezplist"
version = "0.1.0"
edition = "2021"
publish = false

[dependencies]
md-5 = "*"
image = "*"
uuid = { version = "*", features = ["v4"] }

[dev-dependencies]
plist = "*"
