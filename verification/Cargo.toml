[package]
name = "binggan"
version = "0.1.0"
edition = "2021"
publish = false

[dependencies]
yansi = { version = "=1.0.1", features = ["detect-tty", "detect-env"] }
quanta = "=0.13.0"
alloca = "=0.4.0"
peakmem-alloc = "=0.3.0"
perf-event = "=0.4.9"
libc = "=0.2.190"
miniserde = "=0.1.46"
rustop = "=1.1.4"
prettytable-rs = "=0.10.0"
