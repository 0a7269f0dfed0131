[package]
name = "stgit"
version = "0.1.0"
edition = "2021"
publish = false

[dependencies]
anyhow = "=1.0.104"
bstr = "=1.2.0"
clap = "=4.6.7"
git-config = ">=0.16.0, <0.16.2"
git-repository = { version = "=0.35.0", default-features = false }
tempfile = "=3.27.0"
