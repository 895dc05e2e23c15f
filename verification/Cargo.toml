[package]
name = "orbital"
version = "0.1.0"
edition = "2021"
publish = false

[dependencies]
bevy = { version = "=0.17.3", default-features = false, features = ["std", "bevy_pbr", "bevy_gizmos", "bevy_winit", "bevy_window", "bevy_log", "bevy_state", "bevy_picking", "bevy_mesh_picking_backend", "x11"] }
bevy_egui = { version = "=0.37.1", default-features = false }
ron = "=0.10.1"
serde = { version = "=1.0.229", features = ["derive"] }
