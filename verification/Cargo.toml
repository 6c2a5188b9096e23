[package]
name = "dense_task_map"
version = "0.1.0"
edition = "2021"
publish = false

[dependencies]
boxcar = "=0.2.14"
