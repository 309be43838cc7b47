[package]
name = "selection_footer"
version = "0.1.0"
edition = "2021"
publish = false

[dependencies]
trash = "*"
mime_guess = "2"
uzers = "*"
