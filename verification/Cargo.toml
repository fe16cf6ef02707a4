[package]
name = "superbook_pdf"
version = "0.1.0"
edition = "2021"
publish = false

[dependencies]
strsim = "=0.11.1"
rayon = "=1.12.0"
thiserror = "=2.0.21"
image = { version = "=0.25.10", default-features = false, features = ["png"] }
chrono = "0.4"
serde = { version = "1", features = ["derive"] }
serde_json = "1"
imageproc = { version = "0.25", default-features = false }
