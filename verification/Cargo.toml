[package]
name = "clipboard_manager"
version = "0.1.0"
edition = "2021"
publish = false

[dependencies]
arboard = "3"
bincode = "1.3"
chrono = "0.4"
crossbeam-channel = "0.5"
dirs = "5"
gtk4 = { version = "0.7", features = ["v4_12"] }
image = { version = "0.24", default-features = false, features = ["png"] }
libadwaita = "0.5"
parking_lot = "0.12"
serde = { version = "1", features = ["derive"] }
uuid = { version = "1", features = ["v4"] }
