[package]
name = "vasp_files"
version = "0.1.0"
edition = "2021"
publish = false

[dependencies]
clap = { version = "4", features = ["derive"] }
eyre = "0.6"
glob = "0.3"
home = "0.5"
inquire = "*"
lazy_static = "1"
nalgebra = { version = "*", default-features = false, features = ["std"] }
phf = { version = "*", features = ["macros"] }
serde = { version = "1", features = ["derive"] }
serde_json = "1"
tera = { version = "1", default-features = false }
thiserror = "*"
toml = "*"
