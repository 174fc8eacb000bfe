[package]
name = "azdls"
version = "0.1.0"
edition = "2021"
publish = false

[dependencies]
base64 = "=0.22.1"
http = "=1.5.0"
opendal-core = "=0.57.0"
reqsign-azure-storage = "=3.0.1"
reqsign-core = "=3.0.1"
