[package]
name = "havi"
version = "0.1.0"
edition = "2021"
publish = false

[dependencies]
unicode-properties = "=0.1.5"
crossbeam-channel = "=0.5.17"
log = "=0.4.35"
thiserror = "=2.0.21"
indexmap = "=2.14.2"
svgtypes = "=0.16.1"
app_units = "*"
base64 = "*"
image = { version = "*", default-features = false, features = ["png"] }
