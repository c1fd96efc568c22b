[package]
name = "mest"
version = "0.1.0"
edition = "2021"
publish = false

[dependencies]
lasso = "0.7"
yansi = "1"
ariadne = "0.5"
clap = { version = "4", features = ["derive"] }
im = "15"
logos = "0.15"
chumsky = "0.10"
tokio = { version = "1", features = ["full"] }
tower-lsp = "0.20"
