[package]
name = "voicebox"
version = "0.1.0"
edition = "2021"
publish = false

[dependencies]
# Not called here: `embedded-tls`, beneath `reqwless`, needs this feature and does
# not ask for it.
der = { version = "=0.8.3", features = ["heapless"] }
edge-captive = { version = "=0.8.0", default-features = false }
edge-dhcp = { version = "=0.8.0", default-features = false }
embassy-executor = "=0.10.0"
embassy-futures = "=0.1.2"
embassy-net = { version = "=0.9.1", features = ["tcp", "udp", "dns", "dhcpv4", "proto-ipv4", "medium-ethernet"] }
embassy-sync = "=0.8.0"
embassy-time = "=0.5.1"
embedded-graphics = "=0.8.2"
embedded-hal = "=1.0.0"
embedded-hal-bus = "=0.3.0"
embedded-io-async = "=0.7.0"
embedded-nal-async = "=0.9.0"
embedded-storage = "=0.3.2"
es8311 = "=0.1.1"
lcd-async = "=0.1.3"
log = "=0.4.35"
reqwless = { version = "=0.14.0", features = ["alloc"] }
serde = { version = "=1.0.229", features = ["derive"] }
serde_json = "=1.0.154"
static_cell = "=2.1.1"
esp-alloc = "=0.11.0"
esp-backtrace = "=0.20.0"
esp-bootloader-esp-idf = "=0.6.0"
esp-hal = "=1.1.2"
esp-println = "=0.18.0"
esp-radio = "=0.18.0"
esp-rtos = "=0.3.0"
esp-storage = "=0.10.0"
ws2812-rmt = "=0.2.0"
