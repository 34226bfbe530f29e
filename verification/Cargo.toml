[package]
name = "simple_path_tracer"
version = "0.1.0"
edition = "2021"
publish = false

[dependencies]
anyhow = "=1.0.104"
glam = "=0.20.5"
rand = { version = "=0.8.8", features = ["small_rng"] }
log = "=0.4.35"
num_cpus = "=1.17.0"
crossbeam = "=0.8.5"
indicatif = "=0.17.11"
tobj = "=3.2.5"
cgmath = "0.18"
