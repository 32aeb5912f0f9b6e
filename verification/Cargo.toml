[package]
name = "svg_layers"
version = "0.1.0"
edition = "2021"
publish = false

[dependencies]
quick-xml = "0.36"
resvg = "0.42"
