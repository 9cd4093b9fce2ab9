[package]
name = "tdb"
version = "0.1.0"
edition = "2021"
publish = false

[dependencies]
anyhow = "1"
bincode = "1.3"
hashbrown = { version = "0.14", features = ["serde"] }
libflate = "*"
serde = { version = "1", features = ["derive"] }
sha1 = "0.10"
timed = "*"
