[package]
name = "pixakit"
version = "0.1.0"
edition = "2021"
publish = false

[dependencies]
mime_guess = "=2.0.5"
mime = "=0.3.17"
ntex = { version = "3", features = ["tokio"] }
ntex-cors = "3"
ntex-files = "3"
ntex-multipart = "3"
ntex-bytes = "1"
ntex-httparse = "=2.1.0"
moka = { version = "=0.12.16", features = ["future"] }
serde = { version = "=1.0.229", features = ["derive"] }
futures-util = "=0.3.34"
dotenv = "=0.15.0"
aws-config = { version = "=1.13.0", default-features = false, features = ["rt-tokio", "behavior-version-latest"] }
aws-sdk-s3 = { version = "=1.157.0", default-features = false, features = ["rt-tokio", "behavior-version-latest"] }
azure_storage = "=0.21.0"
azure_storage_blobs = "=0.21.0"
