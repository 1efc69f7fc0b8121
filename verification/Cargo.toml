[package]
name = "egglog_duckdb"
version = "0.1.0"
edition = "2021"
publish = false

[dependencies]
anyhow = "1.0"
ordered-float = "5"
egglog-ast = "3.0"
egglog-numeric-id = "3.0"
egglog-core-relations = "3.0"
egglog-bridge = "3.0"
