[package]
name = "supervisor"
version = "0.1.0"
edition = "2021"
publish = false

[dependencies]
atty = "0.2"
exitcode = "1"
num_cpus = "1"
