[package]
name = "strata"
version = "0.1.0"
edition = "2021"
publish = false

[dependencies]
blake3 = "1"
xxhash-rust = { version = "0.8", features = ["xxh64"] }
zstd = "0.13"
bytemuck = { version = "1", features = ["derive"] }
postcard = { version = "1", features = ["alloc"] }
serde = { version = "1", features = ["derive"] }
thiserror = "2"
tokio = { version = "1", features = ["rt", "rt-multi-thread", "sync", "macros"] }
moka = { version = "0.12", features = ["future"] }
fjall = "2"
async-trait = "0.1"
bytes = "1"
