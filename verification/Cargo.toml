[package]
name = "raycaster"
version = "0.1.0"
edition = "2021"
publish = false

[dependencies]
rand = "=0.8.8"
ncurses = "=5.98.0"
device_query = "=4.0.1"
ordered-float = "=5.5.0"
thiserror = "=1.0.69"
