[package]
name = "agenda"
version = "0.1.0"
edition = "2021"
publish = false

[dependencies]
ansi_term = "*"
anyhow = "*"
chrono = "0.4"
chrono-tz = "*"
expanduser = "*"
fs-err = "*"
ical = "*"
rrule = "*"
ureq = "*"
