[package]
name = "kernel"
version = "0.1.0"
edition = "2021"
publish = false

[dependencies]
crossbeam-queue = "0.3"
x86_64 = { version = "0.14", default-features = false, features = ["instructions"] }
log = "0.4"
linked_list_allocator = { version = "0.10", default-features = false }
lazy_static = "1"
lock_api = "0.4"
uart_16550 = "0.2"
pic8259 = "0.10"
bootloader = "0.9"
cortex-a = "7"
tock-registers = "0.7"
