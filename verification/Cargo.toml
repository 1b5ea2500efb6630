[package]
name = "querty"
version = "0.1.0"
edition = "2021"
publish = false

[dependencies]
url = "2"
publicsuffix = { version = "1", default-features = false }
regex = "1"
urlencoding = "1"
scraper = "0.12"
sitemap = "0.4"
indexmap = { version = "1", features = ["serde-1"] }
reqwest = { version = "0.11", default-features = false, features = ["json"] }
tokio = { version = "1", features = ["macros", "rt-multi-thread"] }
async-std = "1"
futures = "0.3"
diesel = { version = "1.4", features = ["mysql"] }
rocket = { version = "0.5", features = ["json"] }
xmlrpc = "0.15"
serde = { version = "1", features = ["derive"] }
config = { version = "0.11", default-features = false, features = ["toml"] }
dotenv = "0.15"
once_cell = "1"
shellexpand = "2"
colour = "0.6"
