[package]
name = "print_ui"
version = "0.1.0"
edition = "2021"
publish = false

[dependencies]
regex = "*"
unicode-segmentation = "*"
serde = { version = "*", features = ["derive"] }
serde_json = "*"
crossbeam-channel = "*"
pipe = "*"
xi-core-lib = "*"
xi-rpc = "*"
log = "*"
dirs = "*"
notify = "*"
infer = "*"
tracing-subscriber = "*"
