[package]
name = "burst"
version = "0.1.0"
edition = "2021"
publish = false

[dependencies]
rusoto_core = "*"
rusoto_ec2 = "*"
ssh2 = "*"
