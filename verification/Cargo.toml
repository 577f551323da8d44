[package]
name = "cross_section_ui"
version = "0.1.0"
edition = "2021"
publish = false

[dependencies]
csv = "1"
dxf = "*"
serde = { version = "1", features = ["derive"] }
serde_json = "1"
