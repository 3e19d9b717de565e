[package]
name = "static_malware_analysis"
version = "0.1.0"
edition = "2021"
publish = false

[dependencies]
capstone = "*"
