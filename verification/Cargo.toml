[package]
name = "mp3_player"
version = "0.1.0"
edition = "2021"
publish = false

[dependencies]
symphonia = { version = "=0.5.5", features = ["mp3", "wav", "pcm"] }
sdl2 = "=0.38.0"
rand = "=0.10.3"
chrono = "=0.4.45"
colored = "=3.1.1"
