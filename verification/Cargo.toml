[package]
name = "data-dict"
version = "0.1.0"
edition = "2021"
publish = false

[dependencies]
chrono = "0.4"
regex = "1"
serde = { version = "1", features = ["derive"] }
serde_json = "1"
pulldown-cmark = "*"
quarto-source-map = "*"
quarto-error-reporting = "*"
quarto-yaml = "*"
quarto-yaml-validation = "*"
