[package]
name = "proton_api"
version = "0.1.0"
edition = "2021"
publish = false

[dependencies]
anyhow = "=1.0.104"
base64 = "=0.22.1"
bcrypt = "=0.17.1"
chrono = { version = "=0.4.45", default-features = false, features = ["clock", "std"] }
getrandom = "=0.2.17"
ical_vcard = "=0.5.0"
num-bigint = "=0.4.8"
p256 = { version = "=0.13.2", default-features = false, features = ["alloc", "arithmetic"] }
p384 = { version = "=0.13.1", default-features = false, features = ["alloc", "arithmetic"] }
p521 = { version = "=0.13.3", default-features = false, features = ["alloc", "arithmetic"] }
reqwest = { version = "=0.12.28", default-features = false, features = ["blocking", "json", "rustls-tls"] }
sequoia-openpgp = { version = "=1.22.0", default-features = false, features = ["crypto-rust", "allow-experimental-crypto", "allow-variable-time-crypto"] }
serde = { version = "=1.0.229", features = ["derive"] }
serde_json = "=1.0.154"
sha2 = "=0.10.9"
thiserror = "=1.0.69"
