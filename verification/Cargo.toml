[package]
name = "conflict_select"
version = "0.1.0"
edition = "2021"
publish = false

[dependencies]
bstr = "=1.13.1"
crossterm = "=0.29.0"
itertools = "=0.14.0"
jj-lib = { version = "=0.39.0", default-features = false }
pollster = "0.4"
ratatui = "=0.30.2"
