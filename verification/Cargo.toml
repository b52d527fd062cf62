[package]
name = "bpftrace_ls"
version = "0.1.0"
edition = "2021"
publish = false

[dependencies]
json = "=0.12.4"
libc = "=0.2.191"
memmap2 = "=0.9.12"
