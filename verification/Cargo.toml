[package]
name = "alien"
version = "0.1.0"
edition = "2021"
publish = false

[dependencies]
base64 = "0.21"
flate2 = "1"
fs_extra = "1"
glob = "0.3"
nix = "0.26"
simple-eyre = "0.3"
snailquote = "0.3"
subprocess = "0.2"
time = { version = "0.3", features = ["formatting", "local-offset"] }
which = "4"
whoami = "1"
