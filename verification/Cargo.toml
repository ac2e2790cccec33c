[package]
name = "audio_player"
version = "0.1.0"
edition = "2021"
publish = false

[dependencies]
ringbuf = "0.2"
anyhow = "1"
cpal = "0.14"
rsmpeg = "0.12"
