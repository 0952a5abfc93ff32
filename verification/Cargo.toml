[package]
name = "fscs-monitor"
version = "0.1.0"
edition = "2021"
publish = false

[dependencies]
anyhow = "1"
chrono = "0.4"
icalendar = "*"
regex = "1"
scraper = "*"
serde_json = "1"
reqwest = { version = "*", default-features = false }
leptos = { version = "0.6", features = ["csr"] }
wasm-bindgen = "0.2"
wasm-bindgen-futures = "0.4"
