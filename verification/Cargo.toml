[package]
name = "rendermd"
version = "0.1.0"
edition = "2021"
publish = false

[dependencies]
pulldown-cmark = { version = "=0.13.6", default-features = false }
comrak = { version = "=0.59.0", default-features = false, features = ["syntect-fancy"] }
gtk4 = "=0.11.5"
libadwaita = "=0.9.2"
sourceview5 = "=0.11.2"
webkit6 = "=0.6.1"
notify = "=8.2.1"
