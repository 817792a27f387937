[package]
name = "rtsp_lib"
version = "0.1.0"
edition = "2021"
publish = false

[dependencies]
futures = "*"
onvif = "*"
openh264 = "*"
retina = "*"
tokio = { version = "*", features = ["rt-multi-thread", "sync", "time", "macros"] }
url = "*"
