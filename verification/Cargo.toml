[package]
name = "sos"
version = "0.1.0"
edition = "2021"
publish = false

[dependencies]
pc-keyboard = "=0.7.0"
x86_64 = { version = "=0.15.5", default-features = false, features = ["instructions"] }
spin = "=0.9.9"
lazy_static = "=1.5.1"
pic8259 = { version = "=0.11.0", default-features = false, features = ["stable"] }
volatile = "=0.2.7"
conquer-once = "=0.4.0"
crossbeam-queue = "=0.3.14"
futures-util = "=0.3.34"
embedded-sdmmc = "=0.7.0"
bootloader = "=0.9.35"
log = "=0.4.34"
