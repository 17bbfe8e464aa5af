[package]
name = "goddard_diets"
version = "0.1.0"
edition = "2021"
publish = false

[dependencies]
calamine = "=0.22.1"
ndarray = "=0.15.6"
simple_excel_writer = "=0.2.0"
