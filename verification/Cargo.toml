[package]
name = "hydraad"
version = "0.1.0"
edition = "2021"
publish = false

[dependencies]
base64 = "0.22"
ntlm-hash = "*"
uuid = { version = "1", features = ["v4"] }
chrono = "0.4"
clap = { version = "4", features = ["derive"] }
shlex = "1"
url = "2"
portpicker = "0.1"
ascii = "1"
reqwest = { version = "0.12", default-features = false, features = ["blocking", "rustls-tls"] }
himmelblau_kerbeiros = "*"
himmelblau_kerberos_ccache = "*"
himmelblau_kerberos_crypto = "*"
