[package]
name = "contdist"
version = "0.1.0"
edition = "2021"

[dependencies]
rand = "*"
rand_distr = "*"
special = "*"
