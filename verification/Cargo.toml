[package]
name = "audio_nodes"
version = "0.1.0"
edition = "2021"
publish = false

[dependencies]
tuix = "=0.2.0"
femtovg = "=0.2.10"
