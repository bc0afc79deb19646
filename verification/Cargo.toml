[package]
name = "benchrs"
version = "0.1.10-alpha.0"
edition = "2021"
publish = false

[dependencies]
anyhow = "=1.0.104"
async-channel = "=1.9.0"
async-native-tls = "=0.4.0"
clap = "=3.2.25"
futures = "=0.3.34"
httparse = "=1.10.1"
log = "=0.4.35"
num_cpus = "=1.17.0"
simplelog = "=0.12.2"
smol = "=1.3.0"
time = "=0.3.55"
url = "=2.5.8"
