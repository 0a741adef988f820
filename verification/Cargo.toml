[package]
name = "feed_notifier"
version = "0.1.0"
edition = "2021"
publish = false

[dependencies]
chrono = "0.4"
quick-xml = "0.22"
url = "2"
telegram-bot = "0.6"
tokio-core = "0.1"
futures = "0.1"
failure = "0.1"
curl = "0.4"
