[package]
name = "abner"
version = "0.1.0"
edition = "2021"
publish = false

[dependencies]
ab_glyph = "=0.2.32"
anyhow = "1"
bytemuck = { version = "1", features = ["derive"] }
env_logger = "0.11"
log = "0.4"
objc2 = "=0.5.3"
objc2-app-kit = { version = "=0.2.2", features = ["NSApplication", "NSEvent", "NSImage", "NSResponder", "NSView", "NSWindow"] }
objc2-foundation = { version = "=0.2.2", features = ["NSData", "NSThread"] }
png = "=0.18.1"
pollster = "0.4"
rsmpeg = { version = "=0.18.0", default-features = false, features = ["ffmpeg8"] }
serde_json = "=1.0.154"
wgpu = "=30.0.1"
winit = "=0.30.13"
