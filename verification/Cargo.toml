[package]
name = "entity_type_model"
version = "0.1.0"
edition = "2021"
publish = false

[dependencies]
nonempty = "*"
smol_str = "*"
serde = { version = "*", features = ["derive"] }
cedar-policy-core = "*"
