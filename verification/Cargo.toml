[package]
name = "rujira-fin"
version = "0.1.0"
edition = "2021"
publish = false

[dependencies]
cosmwasm-std = "=2.2.2"
cw-storage-plus = "=2.0.0"
cw-utils = "=2.0.0"
itertools = "=0.14.0"
rujira-rs = "=0.0.1"
thiserror = "=2.0.21"
cosmwasm-schema = "=2.3.6"
cw2 = "=2.0.0"
