[package]
name = "budget_server"
version = "0.1.0"
edition = "2021"
publish = false

[dependencies]
bcrypt = "=0.19.3"
chrono = "=0.4.45"
dotenv = "=0.15.0"
httparse = "=1.10.1"
jsonwebtoken = { version = "=11.1.0", features = ["rust_crypto"] }
r2d2 = "=0.8.10"
r2d2_sqlite = { version = "=0.35.0", features = ["bundled"] }
serde_json = "=1.0.151"
uuid = { version = "=1.27.0", features = ["v4"] }
