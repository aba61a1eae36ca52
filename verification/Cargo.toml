[package]
name = "parameter_optimizer"
version = "0.1.0"
edition = "2021"
publish = false

[dependencies]
rand = "=0.8.8"
num_cpus = "=1.17.0"
tpe = "=0.1.1"
ctrlc = "=3.5.2"
atomic_float = "=1.1.0"
plotters = { version = "=0.3.7", default-features = false, features = ["bitmap_backend", "bitmap_encoder", "line_series", "point_series"] }
