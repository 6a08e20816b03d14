[package]
name = "fdn_reverb"
version = "0.1.0"
edition = "2021"
publish = false

[dependencies]
audrey = "*"
byteorder = "1"
crossbeam = "0.7"
cubeb = "*"
log = "0.4"
monome-rs = "*"
