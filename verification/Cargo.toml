[package]
name = "reclipsis"
version = "0.1.0"
edition = "2021"
publish = false

[dependencies]
lightyear = { version = "=0.22.5", default-features = false, features = ["input_native"] }
lightyear_core = "=0.22.5"
lightyear_inputs = "=0.22.5"
lightyear_inputs_native = "=0.22.5"
lightyear_link = "=0.22.5"
lightyear_messages = "=0.22.5"
lightyear_serde = "=0.22.5"
lightyear_sync = "=0.22.5"
lightyear_transport = "=0.22.5"
serde = { version = "=1.0.229", features = ["derive"] }
