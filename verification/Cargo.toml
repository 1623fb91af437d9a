[package]
name = "zxx"
version = "0.1.0"
edition = "2021"
publish = false

[dependencies]
clap = "4"
codespan = "0.11"
codespan-reporting = "0.11"
logos = "0.13"
