[package]
name = "scylla_routing"
version = "0.1.0"
edition = "2021"
publish = false

[dependencies]
scylla-cql = "0.0"
