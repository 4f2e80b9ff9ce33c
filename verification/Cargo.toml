[package]
name = "mioco"
version = "0.1.0"
edition = "2021"
publish = false

[dependencies]
bit-vec = "=0.4.4"
coroutine = "=0.3.2"
log = "=0.3.9"
mio = "=0.4.4"
spin = { version = "0.4", default-features = false }
