[package]
name = "manga_scraper"
version = "0.1.0"
edition = "2021"
publish = false

[dependencies]
async_once = "0.2"
clap = { version = "3", features = ["derive"] }
dotenv = "0.15"
fantoccini = "0.19"
lazy_static = "1"
rusoto_core = "0.48"
rusoto_s3 = "0.48"
tokio = { version = "1", features = ["full"] }
