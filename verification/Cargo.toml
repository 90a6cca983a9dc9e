[package]
name = "ex"
version = "0.1.0"
edition = "2021"
publish = false

[dependencies]
async-task = "=4.7.1"
concurrent-queue = "=2.5.0"
slab = "=0.4.12"
