[package]
name = "webapp"
version = "0.1.0"
edition = "2021"
publish = false

[dependencies]
png = "=0.17.16"
ab_glyph = "=0.2.32"
