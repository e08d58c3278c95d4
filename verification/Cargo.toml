[package]
name = "gdb_machine"
version = "0.1.0"
edition = "2021"
publish = false

[dependencies]
regex = "1"
anyhow = "1"
serde = { version = "1", features = ["derive"] }
serde_json = "1"
rayon = "1"
gethostname = "*"
log = "0.4"
clap = { version = "4", features = ["derive"] }
colored = "*"
ctrlc = "3"
env_logger = "*"
ascii_tree = "*"
