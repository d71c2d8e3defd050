[package]
name = "acmi_rewriter"
version = "0.1.0"
edition = "2021"
publish = false

[dependencies]
anyhow = "*"
atty = "*"
bytesize = "*"
camino = "*"
clap = { version = "3", features = ["derive"] }
crossbeam = "*"
log = "*"
simplelog = "*"
tacview = "=0.2.0"

[dev-dependencies]
zip = "=2.4.2"
