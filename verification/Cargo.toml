[package]
name = "cfx_transaction"
version = "0.1.0"
edition = "2021"
publish = false

[dependencies]
ethereum-types = "*"
hex = "0.4"
keccak-hash = "*"
lazy_static = "1"
log = "0.4"
parity-crypto = "*"
pretty_env_logger = "*"
rlp = "*"
secp256k1 = { version = "*", features = ["recovery", "global-context"] }
serde = { version = "1", features = ["derive"] }
tokio = { version = "1", features = ["macros", "rt-multi-thread"] }
warp = "0.3"
web3 = { version = "0.19", default-features = false, features = ["http"] }
zeroize = "1"
