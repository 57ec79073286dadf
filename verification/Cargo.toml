[package]
name = "numbers_station"
version = "0.1.0"
edition = "2021"
publish = false

[dependencies]
spellabet = "=0.3.1"
hound = "=3.5.1"
lowpass-filter = "*"
tokio = { version = "=1.53.2", features = ["macros", "rt-multi-thread"] }
