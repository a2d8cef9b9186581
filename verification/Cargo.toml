[package]
name = "browser_core"
version = "0.1.0"
edition = "2021"
publish = false

[dependencies]
dirs = "*"
gtk = "*"
webkit2gtk = "*"

[dev-dependencies]
urlencoding = "*"
