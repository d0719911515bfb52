[package]
name = "msi_model"
version = "0.1.0"
edition = "2021"
publish = false

[dependencies]
nalgebra = "*"
castep-periodic-table = "*"
