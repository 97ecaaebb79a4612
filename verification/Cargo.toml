[package]
name = "ue4ss_installer"
version = "0.1.0"
edition = "2021"
publish = false

[dependencies]
argh = "0.1"
press-btn-continue = "*"
reqwest = { version = "0.11", default-features = false, features = ["blocking", "rustls-tls"] }
steamlocate = "1"
thiserror = "1"
zip = { version = "0.6", default-features = false, features = ["deflate"] }

[dev-dependencies]
rust-ini = "*"
