[package]
name = "buf_list"
version = "0.1.0"
edition = "2021"
publish = false

[dependencies]
bytes = "1"
proptest = "1"
quickcheck = "1"
crabcheck = "*"
hegeltest = "*"
rand = "0.9"
