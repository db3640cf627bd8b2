[package]
name = "tabby_inference"
version = "0.1.0"
edition = "2021"
publish = false

[dependencies]
trie-rs = "0.1"
dashmap = "5"
serde = { version = "1", features = ["derive"] }
serdeconv = "0.4"
