[package]
name = "h264_parser"
version = "0.1.0"
edition = "2021"

[dependencies]
afl = "*"
