[package]
name = "sendspin"
version = "0.1.0"
edition = "2021"
publish = false

[dependencies]
rtrb = "0.3"
libc = "0.2"
log = "0.4"
parking_lot = "0.12"
