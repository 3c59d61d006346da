[package]
name = "mysql_wire"
version = "0.1.0"
edition = "2021"
publish = false

[dependencies]
tokio = { version = "1", default-features = false, features = ["net", "io-util"] }
dotenvy = "0.15"
futures-core = "0.3"
once_cell = "1"
indoc = "2"
