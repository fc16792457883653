[package]
name = "audio_spectrum"
version = "0.1.0"
edition = "2021"
publish = false

[dependencies]
hound = "3.5"
cpal = "0.15"
rustfft = "6"
embedded-graphics = "0.8"
ssd1306 = "0.9"
linux-embedded-hal = "0.4"
