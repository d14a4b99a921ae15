[package]
name = "cgn"
version = "0.1.0"
edition = "2021"
publish = false

[dependencies]
anyhow = "1"
bincode = "1.3"
bit-vec = "0.6"
clap = { version = "4", features = ["derive"] }
constriction = "0.3"
flate2 = "1"
huffman-compress = "0.6"
pgn-reader = "0.25"
rand = "0.8"
rayon = "1"
serde = { version = "1", features = ["derive"] }
shakmaty = "0.26"
tanton = "1"
textwrap = "0.16"
trie-rs = "0.2"
wasm-bindgen = "0.2"
