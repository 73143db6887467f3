[package]
name = "ntru_core"
version = "0.1.0"
edition = "2021"
publish = false

[dependencies]
base64 = "0.13"
getrandom = "0.2"
structopt = "0.3"
