[package]
name = "home_exporter"
version = "0.1.0"
edition = "2021"
publish = false

[dependencies]
heapless = { version = "=0.9.3", features = ["serde"] }
embassy-time = { version = "=0.5.1", features = ["std"] }
bt-hci = "=0.10.1"
trouble-host = { version = "=0.8.0", features = ["scan"] }
embassy-sync = "=0.8.0"
embassy-futures = "=0.1.2"
embassy-executor = "=0.10.0"
embassy-net = { version = "=0.9.1", features = ["tcp", "udp", "dns", "dhcpv4", "proto-ipv4", "medium-ethernet"] }
embedded-nal-async = "=0.9.0"
reqwless = "=0.13.0"
serde = { version = "=1.0.229", default-features = false, features = ["derive"] }
serde-json-core = "=0.7.0"
defmt = "=1.2.0"
defmt-rtt = "=1.3.1"
panic-probe = "=1.0.0"
static_cell = "=2.1.1"
linked_list_allocator = "=0.10.6"
cyw43 = { version = "=0.7.0", features = ["bluetooth"] }
cyw43-pio = "=0.10.0"
embassy-rp = { version = "=0.10.0", features = ["rp235xa"] }
