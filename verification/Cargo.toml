[package]
name = "facet-v8"
version = "0.1.0"
edition = "2021"
publish = false

[dependencies]
bytemuck = "1"
facet-core = "0.27"
facet-reflect = "0.27"
v8 = "137"
