[package]
name = "kernel_fixtures"
version = "0.1.0"
edition = "2021"
publish = false

[dependencies]
furiosa-opt-std = "=0.6.0"
memmap2 = "=0.9.12"
safetensors = "=0.8.0"
tokio = { version = "=1.54.1", features = ["macros", "rt-multi-thread"] }
