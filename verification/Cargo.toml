[package]
name = "mdansi"
version = "0.1.0"
edition = "2021"
publish = false

[dependencies]
comrak = { version = "*", default-features = false, features = ["shortcodes"] }
syntect = { version = "5", default-features = false, features = ["default-fancy"] }
unicode-width = "*"
strip-ansi-escapes = "*"
clap = { version = "4", features = ["derive", "env"] }
crossterm = "*"
serde = { version = "1", features = ["derive"] }
toml = "*"
thiserror = "*"
