[package]
name = "factorio_crater"
version = "0.1.0"
edition = "2021"
publish = false

[dependencies]
clap = { version = "=4.6.7", features = ["derive"] }
eframe = { version = "=0.36.2", default-features = false, features = ["glow", "persistence", "x11"] }
egui_extras = { version = "=0.36.2" }
futures = { version = "=0.3.34" }
mlua = { version = "=0.12.2", features = ["lua54", "vendored"] }
reqwest = { version = "=0.13.5", default-features = false, features = ["blocking"] }
serde = { version = "=1.0.229", features = ["derive"] }
simd-json = { version = "=0.18.1" }
tokio = { version = "=1.53.2", features = ["rt-multi-thread", "fs"] }
