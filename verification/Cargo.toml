[package]
name = "astryx"
version = "0.1.0"
edition = "2021"
publish = false

[dependencies]
glob = "=0.3.4"
structopt = "=0.3.26"
rustyline = "=19.0.0"
simple-server = "=0.4.0"
pulldown-cmark = "=0.13.5"
syntect = { version = "=5.3.0", default-features = false, features = ["default-fancy"] }
yaml-rust = "=0.4.5"

[dev-dependencies]
nom = "=7.1.3"
nom_locate = "4"
