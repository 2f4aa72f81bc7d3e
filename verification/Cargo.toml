[package]
name = "wifimanager"
version = "0.1.0"
edition = "2021"
publish = false

[dependencies]
embassy-executor = "=0.10.0"
embassy-futures = "=0.1.2"
embassy-net = { version = "=0.9.1", features = ["tcp", "udp", "proto-ipv4", "dhcpv4", "medium-ethernet"] }
embassy-sync = "=0.8.0"
embassy-time = "=0.5.1"
embedded-io-async = "=0.7.0"
embedded-storage = "=0.3.2"
esp-hal = "=1.1.2"
esp-hal-dhcp-server = "=0.4.3"
esp-hal-ota = "=0.6.2"
esp-nvs = "=0.6.3"
esp-radio = { version = "=0.18.0", features = ["wifi"] }
esp-storage = "=0.10.0"
heapless = "=0.9.3"
log = "=0.4.35"
portable-atomic = "=1.15.0"
serde = { version = "=1.0.229", features = ["derive"] }
serde_json = "=1.0.154"
