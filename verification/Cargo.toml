[package]
name = "device_lock"
version = "0.1.0"
edition = "2021"
publish = false

[dependencies]
embassy-executor = { version = "0.7", features = ["task-arena-size-20480"] }
embassy-net = { version = "0.7", features = ["tcp", "proto-ipv4", "medium-ethernet"] }
embassy-time = "0.4"
esp-alloc = "0.8"
esp-backtrace = { version = "0.17", features = ["esp32c3", "panic-handler", "println"] }
esp-bootloader-esp-idf = { version = "0.2", features = ["esp32c3"] }
esp-hal = { version = "=1.0.0-rc.0", features = ["esp32c3", "unstable"] }
esp-hal-embassy = { version = "0.9", features = ["esp32c3"] }
esp-println = { version = "0.15", features = ["esp32c3"] }
esp-wifi = { version = "0.15", features = ["esp32c3", "wifi"] }
static_cell = "2"
