[package]
name = "waycap_core"
version = "0.1.0"
edition = "2021"
publish = false

[dependencies]
anyhow = "*"
bytemuck = "*"
chrono = "*"
config = "*"
crossbeam = "*"
directories = "*"
drm-fourcc = "*"
ffmpeg-next = "*"
log = "*"
pipewire = "*"
portal-screencast = "*"
ringbuf = "*"
serde = { version = "*", features = ["derive"] }
simple-logging = "*"
tokio = { version = "*", features = ["macros", "rt-multi-thread", "sync", "signal", "time"] }
toml = "*"
waycap-rs = "*"
zbus = "*"
