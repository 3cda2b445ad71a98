[package]
name = "which_problem"
version = "0.1.0"
edition = "2021"
publish = false

[dependencies]
strsim = "0.11"
is_executable = "1"
rayon = "1"
itertools = "*"
clap = { version = "4", features = ["derive"] }
