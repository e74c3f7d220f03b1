[package]
name = "arc_lang"
version = "0.1.0"
edition = "2021"
publish = false

[dependencies]
time = { version = "0.3", features = ["macros", "formatting", "parsing"] }
num = "0.4"
ndarray = { version = "0.15", features = ["serde"] }
im-rc = "15"
regex = "1"
serde = { version = "1", features = ["derive"] }
serde_json = "1"
tokio = { version = "1", features = ["rt", "rt-multi-thread", "sync", "macros"] }
