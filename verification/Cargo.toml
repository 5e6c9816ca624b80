[package]
name = "kemono_atom"
version = "0.1.0"
edition = "2021"
publish = false

[dependencies]
scraper = "*"
serde = { version = "*", features = ["derive"] }
chrono = { version = "*", features = ["serde"] }
reqwest = { version = "*", default-features = false, features = ["json"] }

[dev-dependencies]
atom_syndication = "*"
