[package]
name = "gdb_remote_protocol"
version = "0.1.0"
edition = "2021"
publish = false

[dependencies]
log = "=0.4.35"
nom = "=3.2.1"
