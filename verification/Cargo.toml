[package]
name = "vanity"
version = "0.1.0"
edition = "2021"
publish = false

[dependencies]
coins-bip39 = "0.8"
ethers-signers = "2"
rand = "0.8"
ctrlc = "3"
num_cpus = "1"
structopt = "0.3"
