[package]
name = "rojo_snapshot"
version = "0.1.0"
edition = "2021"
publish = false

[dependencies]
csv = "1"
failure = "0.1"
rbx_binary = "0.2.0"
rbx_tree = "0.2.0"
rbx_xml = "0.2.0"
serde_json = "1"
