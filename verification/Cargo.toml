[package]
name = "keyberon"
version = "0.1.0"
edition = "2021"
publish = false

[dependencies]
embedded-hal = { version = "=0.2.7", features = ["unproven"] }
proc-macro2 = "=1.0.107"
quote = "=1.0.47"
proc-macro-error = "=1.0.4"
