[package]
name = "cronchik"
version = "2.0.0"
edition = "2021"
publish = false

[dependencies]
statiki = "*"
time = "0.3"
serde = "1"
