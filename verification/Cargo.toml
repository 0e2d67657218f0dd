[package]
name = "poe_data_tools"
version = "0.1.0"
edition = "2021"
publish = false

[dependencies]
murmurhash64 = "*"
nom = "7"
winnow = "*"
annotated_parser = "*"
iterators_extended = "*"
serde = { version = "1", features = ["derive"] }
serde_json = "1"
url = "2"
reqwest = { version = "0.12", default-features = false, features = ["blocking", "rustls-tls"] }
bytes = "1"
log = "0.4"
anyhow = "1"
thiserror = "*"
glob = "0.3"
clap = { version = "4", features = ["derive"] }
dirs = "*"
arrow = { version = "*", default-features = false, features = ["csv"] }
oozextract = "*"
rayon = "1"
image = { version = "0.25", default-features = false, features = ["png", "dds"] }
