[package]
name = "nix_sweep"
version = "0.1.0"
edition = "2021"
publish = false

[dependencies]
clap = { version = "*", features = ["derive"] }
clap_complete = "*"
clap_mangen = "*"
colored = "*"
duration-str = "*"
rayon = "*"
rustc-hash = "*"
rustix = { version = "*", features = ["termios"] }
serde = { version = "*", features = ["derive"] }
size = "*"
toml = "*"
xdg = "*"
