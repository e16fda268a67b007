[package]
name = "timetable_archive"
version = "0.1.0"
edition = "2021"
publish = false

[dependencies]
sha2 = "*"
untis = "*"
chrono = "*"
dotenvy = "*"
serde = { version = "*", features = ["derive"] }
serde_json = "*"
reqwest = { version = "*", default-features = false, features = ["blocking"] }
