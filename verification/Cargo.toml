[package]
name = "graphite"
version = "0.1.0"
edition = "2021"
publish = false

[dependencies]
rustc_version_runtime = "0.3"
jni = "0.21"
libloading = "0.8"
log = "0.4"
notify = "6"
tempfile = "3"
env_logger = "0.11"
ctor = "0.2"
