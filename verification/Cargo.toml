[package]
name = "archive_extractor"
version = "0.1.0"
edition = "2021"
publish = false

[dependencies]
anyhow = "1"
clap = { version = "4", features = ["derive"] }
egui = "0.29"
log = "0.4"
env_logger = { version = "0.11", default-features = false, features = ["humantime"] }
zip = { version = "0.6", default-features = false, features = ["aes-crypto", "bzip2", "deflate", "zstd"] }
tar = "0.4"
flate2 = "1"
bzip2 = "0.4"
xz2 = "0.1"
zstd = "0.13"
brotli = "8"
lz4_flex = "0.11"
sevenz-rust = "0.6"
unrar = "0.5"
memmap2 = "0.9"
rayon = "1"
