[package]
name = "mech_game_ddev"
version = "0.1.0"
edition = "2021"
publish = false

[dependencies]
macroquad = "0.4"
matchbox_socket = "*"
serde = { version = "1", features = ["derive"] }
bincode = "1"
futures-lite = "*"
log = "0.4"
simplelog = "*"
