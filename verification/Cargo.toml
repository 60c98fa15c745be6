[package]
name = "redlib_subreddit"
version = "0.1.0"
edition = "2021"
publish = false

[dependencies]
regex = "1"
htmlescape = "0.3"
chrono = "0.4"
cookie = "0.18"
time = "0.3"
askama = "0.12"
rss = "2"
hyper = { version = "0.14", features = ["full"] }
