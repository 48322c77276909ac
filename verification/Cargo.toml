[package]
name = "uefi_dxe"
version = "0.1.0"
edition = "2021"
publish = false

[dependencies]
goblin = "=0.8.2"
scroll = "=0.12.0"
r-efi = "=4.5.0"
spin = "=0.9.9"
uuid = "=1.29.0"
linked_list_allocator = "=0.10.6"
