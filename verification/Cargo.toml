[package]
name = "rustavm"
version = "0.1.0"
edition = "2021"
publish = false

[dependencies]
md5 = "=0.7.0"
clap = { version = "=4.6.7", features = ["derive"] }
thiserror = "=2.0.21"
