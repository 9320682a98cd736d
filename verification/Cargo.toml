[package]
name = "stellaros"
version = "0.1.0"
edition = "2021"
publish = false

[dependencies]
cortex-a = "5.1.6"
elfloader = "0.12.0"
register = "=1.0.2"
tock-registers = "=0.10.1"
