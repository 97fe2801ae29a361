[package]
name = "hp_reclaim"
version = "0.1.0"
edition = "2021"
publish = false

[dependencies]
membarrier = "=0.2.2"
