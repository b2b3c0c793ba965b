[package]
name = "tile_game"
version = "0.1.0"
edition = "2021"
publish = false

[dependencies]
rand = "*"
serde = { version = "*", features = ["derive"] }
serde_json = "*"
smol_db_client = "*"
cr_program_settings = "*"
macroquad = "*"
rayon = "*"
