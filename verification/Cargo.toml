[package]
name = "ts_type_resolver"
version = "0.1.0"
edition = "2021"
publish = false

[dependencies]
biome_js_parser = "=0.5.7"
biome_js_syntax = "=0.5.7"
biome_parser = "=0.5.7"
biome_rowan = "=0.5.7"
rustc-hash = "=1.1.0"
