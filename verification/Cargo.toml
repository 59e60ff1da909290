[package]
name = "block_census"
version = "0.1.0"
edition = "2021"
publish = false

[dependencies]
fastanvil = { version = "=0.32.0", default-features = false }
fastnbt = "=2.6.3"
log = "=0.4.34"
num_cpus = "=1.17.0"
stderrlog = "=0.6.0"
structopt = "=0.3.26"
threadpool = "=1.8.1"
