[package]
name = "gen_prime"
version = "0.1.0"
edition = "2021"
publish = false

[dependencies]
glass_pumpkin = "=1.9.1"
num-bigint = "=0.4.8"
num-prime = "=0.6.1"
rand = "=0.8.8"
