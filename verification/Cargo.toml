[package]
name = "ripsync"
version = "0.1.0"
edition = "2021"
publish = false

[dependencies]
blake3 = "=1.8.7"
globset = "=0.4.21"
zstd = "=0.13.4"
rustix = { version = "=1.1.6", features = ["param", "fs", "system"] }
num_cpus = "=1.17.0"
filetime = "=0.2.29"
rand = "=0.8.8"
bincode = "=1.3.3"
serde = { version = "=1.0.229", features = ["derive"] }
serde_json = "=1.0.154"
clap = { version = "=4.6.7", features = ["derive"] }
clap_complete = "=4.6.11"
clap_mangen = "=0.2.33"
anyhow = "=1.0.104"
thiserror = "=1.0.69"
jwalk = "=0.8.1"
reflink-copy = "=0.1.32"
toml = "=0.8.23"
tracing = "=0.1.44"
tracing-subscriber = { version = "=0.3.23", features = ["env-filter", "fmt"] }
notify = "=6.1.1"
xattr = "=1.7.0"
foldhash = "=0.1.5"
rayon = "1"
ratatui = "0.29"
crossterm = "0.28"
