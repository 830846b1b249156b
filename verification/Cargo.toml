[package]
name = "fullscreen_viewer"
version = "0.1.0"
edition = "2021"
publish = false

[dependencies]
anyhow = "=1.0.104"
libc = "=0.2.190"
structopt = "=0.3.26"
x11 = { version = "=2.21.0", features = ["xlib", "xfixes"] }
