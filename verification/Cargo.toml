[package]
name = "tg_graphviz"
version = "0.1.0"
edition = "2021"
rust-version = "1.95"
publish = false

[dependencies]
unicode-segmentation = "=1.13.3"
log = "=0.4.34"
dotenv = "=0.15.0"
pretty_env_logger = "=0.5.0"
teloxide = { version = "=0.12.2", features = ["macros"] }
tokio = { version = "=1.53.2", features = ["macros", "rt-multi-thread"] }
takecell = "=0.1.1"
