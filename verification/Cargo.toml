[package]
name = "brookshear"
version = "0.1.0"
edition = "2021"
publish = false

[dependencies]
ariadne = "=0.6.0"
regex = "=1.13.1"
rapidfuzz = "=0.5.0"
clap = { version = "=4.6.7", features = ["derive"] }
anstyle-parse = "=1.0.0"
