[package]
name = "gpt_candle"
version = "0.1.0"
edition = "2021"
publish = false

[dependencies]
candle-core = "*"
candle-nn = "*"
tiktoken-rs = "*"
