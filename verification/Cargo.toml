[package]
name = "star_rail_metadata_reconstructor"
version = "0.1.0"
edition = "2021"
publish = false

[dependencies]
anyhow = "1"
byteorder = "1"
clap = { version = "4", features = ["derive"] }
iced-x86 = "1"
rayon = "1"
serde = { version = "1", features = ["derive"] }
serde_json = "1"
