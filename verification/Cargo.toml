[package]
name = "virtiofs"
version = "0.1.0"
edition = "2021"
publish = false

[dependencies]
anyhow = "=1.0.104"
epoll = "=4.4.0"
fuse-backend-rs = { version = "=0.14.0", features = ["virtiofs"] }
libc = "=0.2.191"
log = "=0.4.35"
seccompiler = "=0.5.0"
serde = { version = "=1.0.229", features = ["derive"] }
virtio-bindings = "=0.2.7"
virtio-queue = "=0.17.0"
vm-memory = { version = "=0.17.1", features = ["backend-mmap", "backend-atomic"] }
vmm-sys-util = "=0.15.0"
