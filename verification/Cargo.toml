[package]
name = "html_diff"
version = "0.1.0"
edition = "2021"
publish = false

[dependencies]
kuchiki = "*"
html5ever-atoms = "*"
