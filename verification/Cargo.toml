[package]
name = "rgl_ledger"
version = "0.1.0"
edition = "2021"
publish = false

[dependencies]
anyhow = "*"
chrono = "*"
clap = { version = "*", features = ["derive"] }
csv = "*"
diesel = { version = "*", features = ["sqlite", "returning_clauses_for_sqlite_3_35"] }
dotenvy = "*"
libsqlite3-sys = { version = "*", features = ["bundled"] }
rust_decimal = "*"
rust_decimal_macros = "*"
serde = { version = "*", features = ["derive"] }
serde_json = "*"
