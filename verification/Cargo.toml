[package]
name = "tunnel_mux"
version = "0.1.0"
edition = "2021"
publish = false

[dependencies]
chacha20-poly1305-aead = "*"
rand = "*"
mio = { version = "*", features = ["os-poll", "net"] }
