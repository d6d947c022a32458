[package]
name = "geo_tools"
version = "0.1.0"
edition = "2021"
publish = false

[dependencies]
geo = "*"
geojson = "*"

[dev-dependencies]
serde_json = "*"
