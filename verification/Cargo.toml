[package]
name = "craytracer"
version = "0.1.0"
edition = "2021"
publish = false

[dependencies]
approx = "0.5"
clap = { version = "4", features = ["derive"] }
env_logger = "0.10"
image = { version = "0.24", default-features = false, features = ["exr", "png", "jpeg"] }
log = "0.4"
minifb = "0.25"
num_cpus = "1"
rand = "0.8"
rand_distr = "0.4"
sobol_burley = "0.5"
tobj = { version = "4", features = ["use_f64"] }
