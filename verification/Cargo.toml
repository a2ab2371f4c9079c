[package]
name = "scribobulate"
version = "0.1.0"
edition = "2021"
publish = false

[dependencies]
glib = "*"
log = "0.4"
serde = { version = "1", features = ["derive"] }
