[package]
name = "template_input"
version = "0.1.0"
edition = "2021"
publish = false

[dependencies]
mime_guess = "=2.0.5"
quick_cache = "=0.6.24"
quote = "=1.0.47"
syn = "=2.0.119"

[dev-dependencies]
mime = "=0.3.17"
