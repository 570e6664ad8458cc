[package]
name = "venbind"
version = "0.1.0"
edition = "2021"
publish = false

[dependencies]
ashpd = { version = "=0.9.3", default-features = false, features = ["tokio"] }
thiserror = "=1.0.69"
tokio = { version = "=1.54.1", features = ["rt-multi-thread", "sync"] }
xcb = { version = "=1.7.1", features = ["xkb", "as-raw-xcb-connection"] }
xkbcommon = { version = "=0.7.0", features = ["x11"] }
