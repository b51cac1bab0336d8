[package]
name = "boar"
version = "0.1.0"
edition = "2021"
publish = false

[dependencies]
byte-unit = "*"
cfg-if = "*"
clap = { version = "*", features = ["derive"] }
plotly = "*"
uuid = { version = "*", features = ["v4"] }
