[package]
name = "emvault-pkcs11"
version = "0.9.0"
edition = "2021"
publish = false

[dependencies]
bdk_wallet = "3"
bitcoin = "=0.32.102"
cryptoki = "0.12"
elements = "=0.25.3"
emvault-core = { version = "=0.10.0", features = ["elements"] }
emvault-elements = "=0.10.0"
miniscript = "=12.3.8"
secrecy = "=0.10.3"
serde = { version = "1", features = ["derive"] }
serde_json = "1"
thiserror = "2"
