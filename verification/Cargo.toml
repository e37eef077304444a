[package]
name = "prepona"
version = "0.1.0"
edition = "2021"
publish = false

[dependencies]
indexmap = "*"
thiserror = "*"
rudy = "*"
