[package]
name = "ferrisbot"
version = "0.1.0"
edition = "2021"
publish = false

[dependencies]
syn = { version = "2", features = ["full"] }
poise = "0.6"
tokio = { version = "1", features = ["rt", "time"] }
anyhow = "1"
futures = "0.3"
rand = "0.9"
tracing = "0.1"
image = { version = "0.25", default-features = false, features = ["png"] }
imageproc = { version = "0.25", default-features = false }
ab_glyph = "0.2"
itertools = "0.14"
