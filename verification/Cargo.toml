[package]
name = "glyph_pipeline"
version = "0.1.0"
edition = "2021"
publish = false

[dependencies]
guillotiere = "=0.6.2"
ropey = "=1.6.1"
icu_segmenter = "=1.5.0"
log = "=0.4.34"
env_logger = "=0.10.2"
pollster = "=0.3.0"
bytemuck = { version = "=1.25.2", features = ["derive"] }
wgpu = "=0.16.3"
winit = { version = "=0.28.7", default-features = false, features = ["x11"] }
font-kit = "=0.11.0"
harfbuzz = "=0.4.0"
pathfinder_geometry = "=0.5.1"
