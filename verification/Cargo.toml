[package]
name = "pf"
version = "1.2.1"
edition = "2021"
publish = false

[dependencies]
clap = "*"
ctrlc = "*"
dirs = "*"
flexi_logger = "*"
log = "*"
owo-colors = "*"
