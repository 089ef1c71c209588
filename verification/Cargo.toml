[package]
name = "dymo_print"
version = "0.1.0"
edition = "2021"
publish = false

[dependencies]
image = "0.23"
bitvec = "1"
structopt = "0.3"
log = "0.4"
env_logger = "0.10"
serde = { version = "1", features = ["derive"] }
serde_json = "1"
actix-web = { version = "4", default-features = false, features = ["macros"] }
actix-rt = "2"
