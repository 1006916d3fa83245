[package]
name = "roguelite"
version = "0.1.0"
edition = "2021"
publish = false

[dependencies]
bytemuck = { version = "=1.25.2", features = ["derive"] }
egui = "=0.21.0"
egui-macroquad = "=0.15.0"
ggrs = "0.10"
gilrs = "=0.10.10"
glam = "=0.21.3"
macroquad = "=0.3.26"
once_cell = "=1.21.4"
pathfinding = "=4.16.0"
rayon = "=1.12.0"
ron = "=0.8.1"
serde = { version = "=1.0.229", features = ["derive"] }
