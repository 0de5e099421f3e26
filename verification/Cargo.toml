[package]
name = "pasta_fp_urs"
version = "0.1.0"
edition = "2021"
publish = false

[dependencies]
ark-ff = "=0.4.2"
ark-ec = "=0.4.2"
ark-poly = "=0.4.2"
ark-serialize = "=0.4.2"
ark-vesta = "=0.4.0"
rand = "=0.8.8"
