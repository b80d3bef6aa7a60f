[package]
name = "soap_router"
version = "0.1.0"
edition = "2021"
publish = false

[dependencies]
xmltree = { version = "=0.10.3", features = ["attribute-order"] }
isolang = "=2.4.0"
url = "=2.5.8"
axum = "=0.6.20"
bytes = "=1.12.1"
futures = "=0.3.34"
tower = { version = "=0.4.13", features = ["util"] }
tower-service = "=0.3.3"
