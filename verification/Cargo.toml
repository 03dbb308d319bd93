[package]
name = "rdf5d"
version = "0.1.0"
edition = "2021"
publish = false

[dependencies]
crc32fast = "*"
zstd = "*"
oxigraph = { version = "*", default-features = false }
