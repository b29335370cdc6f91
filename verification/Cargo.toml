[package]
name = "fixdecoder"
version = "0.1.0"
edition = "2021"
publish = false

[dependencies]
anyhow = "=1.0.104"
chrono = { version = "=0.4.45", default-features = false, features = ["clock", "std"] }
clap = { version = "=4.6.7", features = ["derive"] }
crossterm = "=0.29.0"
ctrlc = "=3.5.2"
etherparse = "=0.21.0"
pcap-parser = { version = "=0.17.0", features = ["data"] }
rayon = "=1.12.0"
regex = "=1.13.1"
roxmltree = "=0.21.2"
shlex = "=1.3.0"
tempfile = "=3.27.0"
terminal_size = "=0.4.4"
