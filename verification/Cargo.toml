[package]
name = "patchfs"
version = "0.1.0"
edition = "2021"
publish = false

[dependencies]
crc = "1"
fuse_mt = "*"
inotify = "*"
libc = "*"
pretty_env_logger = "*"
time = "*"
