[package]
name = "lru_cache_nif"
version = "0.1.0"
edition = "2021"
publish = false

[dependencies]
lru = "=0.7.8"
rustler = "=0.35.1"
