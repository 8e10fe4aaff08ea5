[package]
name = "pg_codecs"
version = "0.1.0"
edition = "2021"
publish = false

[dependencies]
byteorder = "1"
bytes = "1"
chrono = { version = "0.4", default-features = false, features = ["std"] }
cidr = "*"
macaddr = "1"
postgres-protocol = "0.6"
postgres-types = "0.2"
postgres_range = "*"
rust_decimal = { version = "1", features = ["db-postgres"] }
