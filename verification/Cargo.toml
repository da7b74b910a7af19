[package]
name = "pathtrace"
version = "0.1.0"
edition = "2021"
publish = false

[dependencies]
bytemuck = { version = "1", features = ["derive"] }
fastrand = "2"
threadpool = "1.8"
tokio = { version = "1", features = ["macros", "rt-multi-thread"] }
wgpu = "23"
