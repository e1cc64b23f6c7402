[package]
name = "mealplan"
version = "0.1.0"
edition = "2021"
publish = false

[dependencies]
chrono = { version = "=0.4.45", default-features = false, features = ["std"] }
clap = { version = "=4.6.7", features = ["derive"] }
thiserror = "=1.0.69"
tokio = { version = "=1.54.1", features = ["fs", "rt"] }

[dev-dependencies]
regex = "=1.13.1"
