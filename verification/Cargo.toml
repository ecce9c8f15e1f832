[package]
name = "audio_splitter"
version = "0.1.0"
edition = "2021"
publish = false

[dependencies]
hound = "3.5"
indicatif = "0.17"
rubato = "0.12"
structopt = "0.3"
