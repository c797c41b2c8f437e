[package]
name = "candidate_agreement"
version = "0.1.0"
edition = "2021"
publish = false

[dependencies]
futures = "=0.1.31"
log = "=0.4.34"
parking_lot = "=0.5.5"
serde = "=1.0.229"
serde_derive = "=1.0.229"
tokio-core = "0.1"
tokio-io = "0.1"
