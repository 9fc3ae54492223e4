[package]
name = "term-cave-crawl-rpg"
version = "0.1.0"
edition = "2021"
publish = false

[dependencies]
rand = "0.10.3"
crossterm = "0.29.0"
time-format = "*"
