[package]
name = "recorder"
version = "0.1.0"
edition = "2021"
publish = false

[dependencies]
crossbeam-channel = "=0.5.17"
flacenc = "=0.5.1"
bytemuck = "=1.25.2"
hound = "=3.5.1"
rubato = "=0.15.0"
mp3lame-encoder = "=0.2.5"
serde = { version = "=1.0.229", features = ["derive"] }
thiserror = "=1.0.69"
tracing = "=0.1.44"
cpal = "0.17"
egui = "=0.29.1"
