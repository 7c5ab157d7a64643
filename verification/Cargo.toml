[package]
name = "blog_os"
version = "0.1.0"
edition = "2021"
publish = false

[dependencies]
bootloader = "=0.9.35"
lazy_static = "=1.5.1"
pic8259 = "=0.10.4"
spin = "=0.9.9"
volatile = "=0.2.7"
x86_64 = "=0.14.13"
