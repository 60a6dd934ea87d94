[package]
name = "sdd_validation"
version = "0.1.0"
edition = "2021"
publish = false

[dependencies]
gherkin = "*"
pulldown-cmark = { version = "*", default-features = false }
serde = "*"
serde_yaml = "*"
thiserror = "*"
