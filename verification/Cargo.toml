[package]
name = "ascii_hangman"
version = "0.1.0"
edition = "2021"
publish = false

[dependencies]
rand = "*"
crossterm = "*"
thiserror = "*"
