[package]
name = "hdv"
version = "0.1.0"
edition = "2021"
publish = false

[dependencies]
bincode = "1.3"
integer-encoding = "*"
ron = "*"
serde = { version = "1", features = ["derive"] }
strum = { version = "*", features = ["derive"] }
syn = { version = "2", features = ["full"] }
quote = "1"
proc-macro2 = "1"
