[package]
name = "alaquint_comps"
version = "0.1.0"
edition = "2021"
publish = false

[dependencies]
tokio = { version = "1", features = ["rt-multi-thread", "macros", "sync", "net", "io-util", "time"] }
tokio-serial = { version = "5", default-features = false }
static_cell = "2"
async-trait = "0.1"
paste = "1"
