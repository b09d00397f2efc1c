[package]
name = "rudu"
version = "1.4.0"
edition = "2021"
publish = false

[dependencies]
anyhow = "*"
chrono = "*"
clap = { version = "*", features = ["derive"] }
csv = "*"
globset = "*"
humansize = "*"
indicatif = "*"
libc = "*"
memmap2 = "*"
num_cpus = "*"
once_cell = "*"
parking_lot = "*"
rayon = "*"
serde = { version = "*", features = ["derive"] }
serde_json = "*"
sysinfo = "*"
walkdir = "*"
