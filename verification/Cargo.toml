[package]
name = "leader"
version = "0.1.0"
edition = "2021"
publish = false

[dependencies]
anyhow = "1"
ethers = { version = "2.0.14", default-features = false }
evm_arithmetization = "0.2.0"
hex = "0.4.3"
mpt_trie = "0.3.0"
plonky2 = "0.2.2"
smt_trie = "0.1.1"
