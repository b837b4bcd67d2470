[package]
name = "chain_explorer"
version = "0.1.0"
edition = "2021"
publish = false

[dependencies]
ethabi = "18"
tiny-keccak = { version = "2", features = ["keccak"] }
rustc-hex = "2"
web3 = { version = "0.19", default-features = false, features = ["http"] }
reqwest = { version = "0.11", default-features = false, features = ["blocking", "json"] }
rocksdb = "*"
rouille = "3"
handlebars = "*"
serde = { version = "1", features = ["derive"] }
serde_derive = "1"
serde_json = "1"
serde_cbor = "0.11"
toml = "*"
ctrlc = "3"
rand = "0.8"
