[package]
name = "wa_engine"
version = "0.1.0"
edition = "2021"
publish = false

[dependencies]
unicode-linebreak = "=0.1.5"
lru = { version = "=0.18.5", default-features = false }
fontdue = "=0.9.4"
rayon = "=1.12.0"
