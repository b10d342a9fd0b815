[package]
name = "cdc_pipeline"
version = "0.1.0"
edition = "2021"
publish = false

[dependencies]
clickhouse = "*"
dotenv = "*"
futures-util = "*"
mongodb = "*"
tokio = { version = "*", features = ["macros", "rt-multi-thread"] }
urlencoding = "*"
