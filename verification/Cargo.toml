[package]
name = "glue_evaluate"
version = "0.1.0"
edition = "2021"
publish = false

[dependencies]
chrono = "0.4"
futures = "0.3"
im-rc = "15"
