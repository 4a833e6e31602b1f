[package]
name = "mdlc"
version = "0.1.0"
edition = "2021"

[dependencies]
parry3d = "*"
