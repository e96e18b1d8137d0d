[package]
name = "mlir_pipeline_utils"
version = "0.1.0"
edition = "2021"
publish = false

[dependencies]
clap = { version = "4", features = ["derive"] }
color-eyre = "0.6"
indicatif = "0.17"
zstd = { version = "0.13", features = ["zstdmt"] }
