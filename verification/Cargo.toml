[package]
name = "xbel_filter"
version = "0.1.0"
edition = "2021"
publish = false

[dependencies]
quick-xml = "=0.37.5"
percent-encoding = "=2.3.2"
chrono = "=0.4.45"
directories = "=6.0.0"
