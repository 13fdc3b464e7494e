[package]
name = "nalu"
version = "0.1.0"
edition = "2021"
publish = false

[dependencies]
alphanumeric-sort = "1"
num-bigint = "0.4"
tui = "0.19"
crossterm = "0.25"
clap = { version = "4", features = ["derive"] }
crossbeam = "0.8"
backtrace = "0.3"
lazy_static = "1"
log = "0.4"
simple-logging = "2"
makai = "*"
makai_vcd_reader = "*"
makai_waveform_db = "*"
tui_tiling = "*"
pyo3 = "0.19"

[dev-dependencies]
tempfile = "3"
