[package]
name = "unidis"
version = "0.1.0"
edition = "2021"
publish = false

[dependencies]
libsla = "=1.2.0"
xmltree = { version = "=0.12.0", features = ["attribute-sorted"] }
hex = "=0.4.3"
goblin = "=0.10.7"
anyhow = "=1.0.104"
clap = { version = "=4.6.7", features = ["derive"] }
crossterm = "=0.29.0"
keystone-engine = "=0.1.0"
serde = { version = "=1.0.229", features = ["derive"] }
actix-web = "=4.18.1"
askama = "=0.16.1"
dotenv = "=0.15.0"
tracing = "=0.1.44"
tracing-subscriber = { version = "=0.3.23", features = ["env-filter", "fmt"] }
emscripten-functions = "=0.3.0"
