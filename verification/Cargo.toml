[package]
name = "rozeos"
version = "0.1.0"
edition = "2021"
publish = false

[dependencies]
x86_64 = { version = "0.15", default-features = false, features = ["instructions"] }
limine = "0.5"
linked_list_allocator = "0.10"
fatfs = "0.3"
fscommon = "0.1"
font8x8 = { version = "0.3", default-features = false }
