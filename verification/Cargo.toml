[package]
name = "flatsql"
version = "0.1.0"
edition = "2021"

[dependencies]
prettytable-rs = { version = "0.10", default-features = false }
sqlparser = "0.37"
