[package]
name = "strom_storage"
version = "0.1.0"
edition = "2021"
publish = false

[dependencies]
bytes = "1"
crc32c = "0.6"
futures = "0.3"
imbl = "*"
object_store = { version = "*", default-features = false }
postcard = { version = "1", default-features = false, features = ["use-std"] }
rand = "0.9"
rkyv = { version = "0.8", features = ["unaligned"] }
thiserror = "2"
tokio = { version = "1", features = ["macros", "rt", "sync", "time"] }
