[package]
name = "pandora_launcher"
version = "0.1.0"
edition = "2021"
publish = false

[dependencies]
clap = "4"
directories = "6"
fern = { version = "0.7", features = ["colored"] }
humantime = "2"
libc = "0.2"
log = "0.4"
native-dialog = "0.9"
parking_lot = { version = "0.12", features = ["deadlock_detection"] }
tokio = { version = "1", features = ["rt-multi-thread", "net", "io-util", "macros", "sync", "time"] }
tokio-util = "0.7"
