[package]
name = "vad_pipeline"
version = "0.1.0"
edition = "2021"
publish = false

[dependencies]
ringbuf = "0.3"
cpal = "0.15"
coqui-stt = "*"
