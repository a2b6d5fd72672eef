[package]
name = "servedir"
version = "0.1.0"
edition = "2021"
publish = false

[dependencies]
base64 = "0.13"
timeago = "*"
rocket = "0.5"
rocket_dyn_templates = { version = "0.1", features = ["handlebars"] }
serde = { version = "1", features = ["derive"] }
structopt = "0.3"
tokio = { version = "1", features = ["fs"] }
log = "0.4"
env_logger = "*"
