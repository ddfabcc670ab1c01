[package]
name = "perlink"
version = "0.1.0"
edition = "2021"
publish = false

[dependencies]
linkify = "0.10"
shlex = "1.3"
prefstore = "0.5"
isahc = "1.7"
arboard = { version = "3", default-features = false }
fltk = "1.5"
winreg = "0.55"
