[package]
name = "simple_xml_serialize"
version = "0.2.1"
edition = "2021"

[dependencies]
proc-macro2 = "0.4"
quote = "0.6"
syn = { version = "0.15", features = ["full"] }
