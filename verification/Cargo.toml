[package]
name = "crdt_table"
version = "0.1.0"
edition = "2021"
publish = false

[dependencies]
csv = "1"
fastrand = "2"
serde = { version = "1", features = ["derive"] }
yrs = "*"
zstd = "*"
