[package]
name = "fcs"
version = "0.1.0"
edition = "2021"
publish = false

[dependencies]
chrono = "=0.4.45"
locale = "=0.2.2"
ctrlc = "=3.5.2"
dirs-next = "=2.0.0"
exitcode = "=1.1.2"
log = "=0.4.34"
rayon = "=1.12.0"
scan_dir = "=0.3.3"
serde = { version = "=1.0.229", features = ["derive"] }
serde_yaml = "=0.9.34"
shellexpand = "=3.1.2"
simple_logger = "=5.2.0"
structopt = "=0.3.26"
clap-verbosity-flag = "=0.3.2"
