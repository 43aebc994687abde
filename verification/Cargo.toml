[package]
name = "ods"
version = "0.1.0"
edition = "2021"
publish = false

[dependencies]
anstream = "*"
clap = { version = "*", features = ["derive"] }
eyre = "*"
heck = "*"
indexmap = "*"
owo-colors = "*"
proc-exit = "*"
serde = { version = "*", features = ["derive"] }
serde_json = "*"
serde_yml = "*"
tracing = "*"
