[package]
name = "gpui_zgui"
version = "0.1.0"
edition = "2021"
publish = false

[dependencies]
anyhow = "1"
futures = "0.3"
log = "0.4"
parking_lot = "0.12"
profiling = "1"
raw-window-handle = "0.6"
rustc-hash = "2"
smallvec = "1"
uuid = { version = "1", features = ["v5"] }
winit = "0.30"
zgui-atlas = "0.1"
zgui-bits = "0.1"
zgui-color = "0.1"
zgui-geom = "0.1"
zgui-render = "0.1"
zgui-render-wgpu = "0.1"
zgui-scene = "0.1"
