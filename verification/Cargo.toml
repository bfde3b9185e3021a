[package]
name = "stage2_loader"
version = "0.1.0"
edition = "2021"
publish = false

[dependencies]
acpi = { version = "=5.2.0", default-features = false }
bit = "=0.1.1"
goblin = "=0.10.7"
log = "=0.4.34"
uefi = { version = "=0.28.0", features = ["alloc", "logger"] }
