[package]
name = "voice_harmonics"
version = "0.1.0"
edition = "2021"
publish = false

[dependencies]
cpal = "=0.18.2"
glium = "=0.35.0"
glutin = "=0.32.3"
glutin-winit = "=0.5.0"
imgui = "=0.12.0"
imgui-glium-renderer = "=0.13.0"
imgui-winit-support = "=0.13.0"
parking_lot = "=0.12.5"
realfft = "=3.5.1"
rtrb = "=0.4.1"
winit = "=0.30.13"
