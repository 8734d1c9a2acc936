[package]
name = "cosmic_ext_workspaces_bar"
version = "0.1.0"
edition = "2021"
publish = false

[dependencies]
calloop = "=0.14.5"
calloop-wayland-source = "=0.4.1"
cosmic-client-toolkit = "=0.2.0"
env_logger = "=0.11.11"
futures = "0.3"
gbm = "=0.18.0"
glow = "=0.16.0"
image = "=0.25.10"
khronos-egl = { version = "=6.0.0", features = ["dynamic"] }
libc = "=0.2.191"
log = "=0.4.35"
memmap2 = "=0.9.12"
reqwest = { version = "=0.12.28", default-features = false, features = ["rustls-tls"] }
rustix = { version = "=1.1.6", features = ["fs", "shm"] }
serde = { version = "=1.0.229", features = ["derive"] }
tokio = { version = "=1.54.1", features = ["full"] }
zbus = { version = "=5.19.0", default-features = false, features = ["tokio"] }
