[package]
name = "media_index"
version = "0.1.0"
edition = "2021"
publish = false

[dependencies]
sha2 = "=0.11.0"
uuid = { version = "=1.27.0", features = ["v5"] }
natord = "=1.0.9"
image = { version = "=0.25.10", default-features = false, features = ["jpeg", "png"] }
fast_image_resize = "=6.1.0"
rayon = "=1.12.0"
serde = { version = "=1.0.229", features = ["derive"] }
serde_json = "=1.0.151"
xattr = "=1.6.1"
plist = "=1.10.1"

[dev-dependencies]
percent-encoding = "=2.3.2"
