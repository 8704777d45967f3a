[package]
name = "git_detective"
version = "0.1.0"
edition = "2021"
publish = false

[dependencies]
chrono = "0.4"
clap = "2"
git2 = "0.13"
rayon = "1"
term_size = "0.3"
thiserror = "1"
tokei = "12"
url = "2"
