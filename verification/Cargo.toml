[package]
name = "llm_globber"
version = "0.1.0"
edition = "2021"
publish = false

[dependencies]
base64 = "0.21"
chrono = "0.4"
clap = "3.2"
colored = "2"
ed25519-dalek = "1.0.1"
glob = "0.3"
log = "0.4"
memmap2 = "0.9"
rand = "0.7"
