[package]
name = "db_connections"
version = "0.1.0"
edition = "2021"
publish = false

[dependencies]
regex = "=1.13.1"
csv = "=1.4.0"
log = "=0.4.34"
simplelog = "=0.12.2"
time = "=0.3.55"
