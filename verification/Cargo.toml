[package]
name = "latc"
version = "0.1.0"
edition = "2021"
publish = false

[dependencies]
codespan = "0.9"
codespan-reporting = "0.9"
termcolor = "1"
