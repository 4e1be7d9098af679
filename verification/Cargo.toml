[package]
name = "typst_doc"
version = "0.0.1"
edition = "2021"
publish = false

[dependencies]
typst-syntax = "*"
html-escape = "0.2"
rd-ast = "*"
rd-source = "*"
pydocstring = "*"
rustpython-parser = "0.3"
clap = { version = "4", features = ["derive"] }
anyhow = "1"
thiserror = "*"
