[package]
name = "xml_doc"
version = "0.2.0"
edition = "2021"
publish = false

[dependencies]
encoding_rs = "0.8.28"
quick-xml = "0.22.0"
