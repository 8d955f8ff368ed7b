[package]
name = "flowlite"
version = "0.1.0"
edition = "2021"
publish = false

[dependencies]
anyhow = "1"
askama = "0.14"
axum = "0.8"
chrono = "0.4"
lettre = { version = "0.11", default-features = false, features = ["builder", "smtp-transport", "tokio1", "tokio1-rustls", "ring", "webpki-roots"] }
libc = "0.2"
mime_guess = "2"
reqwest = { version = "0.13", default-features = false, features = ["json", "rustls-no-provider"] }
rmcp = { version = "*", features = ["server", "macros", "schemars", "transport-io"] }
rustls = { version = "0.23", default-features = false, features = ["ring", "std", "tls12"] }
serde = { version = "1", features = ["derive"] }
serde_json = "1"
tokio = { version = "1", features = ["full"] }
