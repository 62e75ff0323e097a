[package]
name = "schema_mapper"
version = "0.1.0"
edition = "2021"
publish = false

[dependencies]
catalytic = "=0.2.0"
catalytic_macro = "=0.2.0"
catalytic_table_to_struct = "=0.2.0"
futures-util = "0.3"
scylla = "=0.14.0"
tokio = { version = "1", features = ["macros", "rt-multi-thread"] }
tracing-subscriber = "0.3"
uuid = "1"
