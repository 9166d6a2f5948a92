[package]
name = "audible_commands"
version = "0.1.0"
edition = "2021"
publish = false

[dependencies]
anyhow = "1"
async-trait = "0.1"
base64 = "0.22"
clap = { version = "4", features = ["string", "env"] }
clap_complete = "4"
console = "0.15"
dialoguer = "0.11"
fd-lock = "4"
futures = "0.3"
hex = "0.4"
indicatif = "0.17"
libc = "0.2"
qrcode = { version = "0.14", default-features = false }
reqwest = { version = "0.12", default-features = false, features = ["json", "stream"] }
rusqlite = "0.32"
secrecy = "0.10"
serde = { version = "1", features = ["derive"] }
serde_json = "1"
time = { version = "0.3", features = ["formatting", "parsing", "macros"] }
tokio = { version = "1", features = ["rt-multi-thread", "macros", "fs", "io-std", "io-util", "process", "time"] }
toml = "0.8"
tracing = "0.1"
url = "2"
zeroize = "1"
