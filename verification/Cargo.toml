[package]
name = "deptry_core"
version = "0.1.0"
edition = "2021"
publish = false

[dependencies]
chardetng = "*"
encoding_rs = "*"
ignore = "*"
path-slash = "*"
rayon = "*"
regex = "*"
rustpython-ast = "=0.3.1"
rustpython-parser = "=0.3.1"
serde_json = "*"
