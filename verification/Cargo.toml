[package]
name = "irm"
version = "0.1.0"
edition = "2021"
publish = false

[dependencies]
clap = "4"
crossterm = "*"
indicatif = "0.17"
walkdir = "2"
