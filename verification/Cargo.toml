[package]
name = "design_tokens"
version = "0.1.0"
edition = "2021"
publish = false

[dependencies]
convert_case = "*"
deunicode = "*"
indexmap = { version = "*", features = ["serde"] }
serde = { version = "*", features = ["derive"] }
serde_json = "*"

[dev-dependencies]
csscolorparser = "*"
