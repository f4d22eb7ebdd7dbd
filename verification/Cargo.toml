[package]
name = "rssss"
version = "0.1.0"
edition = "2021"
publish = false

[dependencies]
xml-rs = "=1.0.0"
scraper = "=0.27.0"
actix-web = "*"
actix-rt = "*"
actix-cors = "*"
awc = "*"
futures-util = "*"
listenfd = "*"
log = "*"
serde = "*"
serde_derive = "*"
simple_logger = "*"
