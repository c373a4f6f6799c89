[package]
name = "skymp_wire"
version = "0.1.0"
edition = "2021"
publish = false

[dependencies]
arbitrary = { version = "1", features = ["derive"] }
cxx = "1"
heapless = { version = "0.7", features = ["serde"] }
postcard = { version = "1", features = ["heapless", "experimental-derive", "use-std"] }
renet = "*"
renet_netcode = "*"
serde = { version = "1", features = ["derive"] }
serde_json = "1"
serde_yaml = "0.9"
thiserror = "*"
