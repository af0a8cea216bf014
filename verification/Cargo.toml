[package]
name = "g560_driver"
version = "0.1.0"
edition = "2021"
publish = false

[dependencies]
num = "*"
nusb = "0.1"
tokio = { version = "1", features = ["macros", "rt-multi-thread", "time"] }
clap = "4"
colored = "*"
anyhow = "1"
css-color = "*"
thiserror = "*"
