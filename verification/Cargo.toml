[package]
name = "transit_enrich"
version = "0.1.0"
edition = "2021"
publish = false

[dependencies]
chrono = "=0.4.45"
minidom = "=0.12.0"
