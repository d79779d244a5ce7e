[package]
name = "gitlog"
version = "0.1.0"
edition = "2021"
publish = false

[dependencies]
glib = "*"
gtk4 = "*"
rust-i18n = "*"
