[package]
name = "rs_raft"
version = "0.1.0"
edition = "2021"
publish = false

[dependencies]
fxhash = "0.2"
protobuf = "2"
