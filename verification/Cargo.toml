[package]
name = "pi_engine"
version = "0.1.0"
edition = "2021"
publish = false

[dependencies]
num-bigint = "=0.5.1"
num-integer = "=0.1.47"
num-traits = "=0.2.19"
num_cpus = "=1.17.0"
chrono = "=0.4.45"
