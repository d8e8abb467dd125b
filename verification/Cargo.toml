[package]
name = "stardust_db"
version = "0.1.0"
edition = "2021"
publish = false

[dependencies]
bincode = "=1.3.3"
co_sort = "=0.2.0"
indexmap = "=1.9.3"
itertools = "=0.10.5"
once_cell = "=1.21.4"
rand = "=0.8.8"
serde = { version = "=1.0.229", features = ["derive"] }
sled = "=0.34.7"
sqlparser = "0.11"
thiserror = "=1.0.69"
