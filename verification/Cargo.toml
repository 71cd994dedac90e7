[package]
name = "soft_renderer"
version = "0.1.0"
edition = "2021"
publish = false

[dependencies]
image = { version = "=0.25.10", default-features = false, features = ["png", "jpeg"] }
bytemuck = { version = "=1.25.2", features = ["derive"] }
log = "=0.4.35"
env_logger = { version = "=0.11.11", default-features = false }
windows = { version = "=0.58.0", features = ["Win32_Foundation", "Win32_Graphics_Gdi", "Win32_System_LibraryLoader", "Win32_UI_WindowsAndMessaging"] }
