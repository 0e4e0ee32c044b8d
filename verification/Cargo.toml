[package]
name = "picomate"
version = "0.1.0"
edition = "2021"
publish = false

[dependencies]
cortex-m = "0.7"
cortex-m-rt = "0.7"
cyw43 = "0.6"
cyw43-pio = "0.9"
defmt = "1"
defmt-rtt = "1"
embassy-boot = "0.6"
embassy-boot-rp = "0.9"
embassy-executor = "0.9"
embassy-net = { version = "0.8", features = ["tcp", "dhcpv4", "medium-ethernet", "proto-ipv4"] }
embassy-rp = { version = "0.9", features = ["rp2040", "time-driver", "critical-section-impl"] }
embassy-sync = "0.7"
embassy-time = "0.5"
embedded-graphics = "0.8"
fixed = "1"
heapless = "0.8"
panic-probe = "1"
ssd1306 = "0.10"
static_cell = "2"
