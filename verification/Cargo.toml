[package]
name = "lexical_parse_float"
version = "0.1.0"
edition = "2021"
publish = false
