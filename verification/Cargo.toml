[package]
name = "fgcd_model"
version = "0.1.0"
edition = "2021"
publish = false

[dependencies]
anyhow = "=1.0.104"
chrono = "=0.4.45"
icu_locale_core = "=2.4.0"
regex = "=1.13.1"
spreadsheet-ods = "=1.0.4"
strum = { version = "=0.25.0", features = ["derive"] }
