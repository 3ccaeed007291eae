[package]
name = "ipc_file_writer"
version = "0.1.0"
edition = "2021"
publish = false

[dependencies]
arrow-format = { version = "0.8", features = ["ipc"] }
