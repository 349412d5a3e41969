[package]
name = "feed_digest"
version = "0.1.0"
edition = "2021"
publish = false

[dependencies]
atom_syndication = "*"
chrono = "*"
diligent-date-parser = "*"
futures = "*"
opml = "*"
reqwest = { version = "*", default-features = false }
rss = "*"
tokio = { version = "*", features = ["macros", "rt-multi-thread"] }
