[package]
name = "manga_reader"
version = "0.1.0"
edition = "2021"
publish = false

[dependencies]
sha2 = "0.10"
image = { version = "0.25", default-features = false, features = ["png", "jpeg", "gif", "bmp", "webp", "ico"] }
zip = "*"
sevenz-rust2 = "*"
tar = "0.4"
flate2 = "*"
bzip2 = "*"
xz2 = { version = "0.1", features = ["static"] }
mobi = "*"
epub = "*"
scraper = "*"
urlencoding = "2"
path-clean = "*"
hayro = "*"
hayro-interpret = "*"
