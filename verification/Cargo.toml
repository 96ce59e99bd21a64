[package]
name = "tdlg"
version = "0.1.0"
edition = "2021"
publish = false

[dependencies]
pathfinding = "4"
rand = "0.8"
rand_pcg = "0.3"
rand_seeder = "0.2"
serde = { version = "1", features = ["derive"] }
serde_json = "1"
walkdir = "2"
