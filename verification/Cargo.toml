[package]
name = "n3_reasoner"
version = "0.1.0"
edition = "2021"
publish = false

[dependencies]
oxigraph = "0.2"
rio_api = "0.5"
rio_turtle = "0.5"
