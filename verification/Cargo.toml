[package]
name = "rustyink"
version = "0.1.0"
edition = "2021"
publish = false

[dependencies]
anyhow = "=1.0.104"
async-recursion = "=1.2.0"
axum = "=0.6.20"
chrono = "=0.4.45"
clap = { version = "=4.6.7", features = ["derive"] }
config = { version = "=0.13.4", default-features = false, features = ["toml"] }
directories = "=5.0.1"
fs_extra = "=1.3.0"
futures-util = "=0.3.34"
handlebars = "=4.5.0"
html-minifier = "=4.0.0"
md-5 = "=0.10.6"
notify = "=6.1.1"
notify-debouncer-mini = "=0.4.1"
owo-colors = "=3.5.0"
pulldown-cmark = "=0.9.6"
rayon = "=1.12.0"
regex = "=1.13.1"
reqwest = { version = "=0.11.27", features = ["blocking", "json"] }
serde = { version = "=1.0.229", features = ["derive"] }
serde_json = { version = "=1.0.154", features = ["preserve_order"] }
serde_yaml = "=0.9.34"
sitewriter = "=1.0.5"
slugify = "=0.1.0"
tokio = { version = "=1.54.1", features = ["full"] }
tokio-tungstenite = "=0.20.1"
toml = "=0.7.8"
tower-http = { version = "=0.4.4", features = ["fs", "trace"] }
url = "=2.5.8"
walkdir = "=2.5.0"
