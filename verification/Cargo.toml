[package]
name = "rustbond"
version = "0.1.0"
edition = "2021"
publish = false

[dependencies]
futures = "0.3"
ipnet = "2"
netlink-packet-route = "0.19"
parking_lot = "0.12"
prost = "0.13"
rand = "0.8"
rtnetlink = "0.14"
thiserror = "1"
tokio = { version = "1", features = ["full"] }
tracing = "0.1"
