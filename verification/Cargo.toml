[package]
name = "wasm_rpc_stubgen"
version = "0.1.0"
edition = "2021"
publish = false

[dependencies]
anyhow = "*"
cargo_toml = "*"
clap = { version = "*", features = ["derive"] }
fs_extra = "*"
golem-wasm-ast = "*"
heck = "*"
serde = { version = "*", features = ["derive"] }
tempfile = "*"
toml = "*"
wasm-compose = "*"
wit-parser = "*"
