[package]
name = "hub75"
version = "0.3.0"
edition = "2021"
publish = false

[dependencies]
critical-section = "*"
embassy-stm32 = { version = "*", default-features = false, features = ["stm32h563zi", "unstable-pac"] }
hub75-framebuffer = "*"
