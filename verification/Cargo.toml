[package]
name = "ooxml_numfmt"
version = "0.1.5"
edition = "2021"
publish = false

[dependencies]
num-bigint = "0.4"
thiserror = "2"
