[package]
name = "peer_wire"
version = "0.1.0"
edition = "2021"
publish = false

[dependencies]
byteorder = "1"
bytes = "0.4"
nom = "3.2"
