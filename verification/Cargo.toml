[package]
name = "bronze_table"
version = "0.1.0"
edition = "2021"
publish = false

[dependencies]
deltalake = { version = "0.22.3", default-features = false, features = ["datafusion"] }
log = "0.4"
simple_logger = { version = "5", default-features = false }
tokio = { version = "1", features = ["macros", "rt-multi-thread"] }
