[package]
name = "ewc"
version = "0.1.0"
edition = "2021"
publish = false

[dependencies]
bytemuck = "=1.25.2"
drm = "=0.15.0"
gbm-sys = "=0.4.0"
gl46 = "=0.2.1"
input = "=0.10.0"
libc = "=0.2.191"
libseat-sys = "=0.2.0"
memmap2 = "=0.9.12"
pixman = "=0.2.1"
proc-macro2 = "=1.0.107"
quote = "=1.0.47"
serde = { version = "=1.0.229", features = ["derive"] }
shmemfdrs2 = "=1.0.0"
signal-hook = "=0.4.6"
syn = "=2.0.119"
toml_edit = { version = "=0.25.17", features = ["serde"] }
wayrs-client = "=1.3.1"
wayrs-core = "=1.0.5"
wayrs-proto-parser = "=3.0.2"
wayrs-protocols = { version = "=0.14.11", features = ["linux-dmabuf-v1", "xdg-shell"] }
wayrs-utils = { version = "=0.17.2", features = ["dmabuf_feedback", "seats", "shm_alloc"] }
xcursor = "=0.3.11"
xkbcommon = "=0.9.0"
