[package]
name = "text_to_svg"
version = "0.1.0"
edition = "2021"
publish = false

[dependencies]
anyhow = "1"
clap = "2"
ttf-parser = "0.12"
xmlwriter = "0.1"

[dev-dependencies]
nom = "7"
