[package]
name = "glitter_lang"
version = "0.1.0"
edition = "2021"
publish = false

[dependencies]
nom = { version = "5", default-features = false, features = ["std"] }
yansi = "0.5"
git2 = { version = "0.13", default-features = false }
structopt = "0.3"
human-panic = "1"
