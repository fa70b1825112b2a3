[package]
name = "pico_w_display"
version = "0.1.0"
edition = "2021"
publish = false

[dependencies]
heapless = "=0.9.3"
smart-leds = "=0.4.0"
embedded-io-async = "=0.7.0"
embassy-sync = "=0.8.0"
embassy-time = "=0.5.1"
embassy-futures = "=0.1.2"
embassy-usb = "=0.6.0"
embassy-net = { version = "=0.9.1", features = ["dhcpv4", "proto-ipv4", "tcp", "udp"] }
cyw43 = "=0.7.0"
static_cell = "=2.1.1"
