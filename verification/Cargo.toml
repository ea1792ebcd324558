[package]
name = "query_os"
version = "0.1.0"
edition = "2021"
publish = false

[dependencies]
url = "*"
dirs = "*"
sysinfo = "*"
chrono = "*"
clap = { version = "*", features = ["derive"] }
rayon = "*"
plist = "*"
prettytable-rs = "*"
