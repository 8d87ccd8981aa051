[package]
name = "ted"
version = "0.1.0"
edition = "2021"
publish = false

[dependencies]
by_address = "*"
gdk = "*"
git2 = { version = "*", default-features = false }
gtk = "*"
lazy_static = "*"
pancurses = "*"
pancurses-result = "*"
parking_lot = "*"
