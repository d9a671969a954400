[package]
name = "persistent_storage"
version = "0.1.0"
edition = "2021"
publish = false

[dependencies]
libc = "0.2"
prost = { version = "0.13", default-features = false, features = ["std"] }
structopt = "0.3"
thiserror = "1"
tokio = { version = "1", features = ["fs", "io-util", "macros", "net", "rt-multi-thread", "signal", "sync"] }
