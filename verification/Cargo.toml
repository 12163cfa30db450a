[package]
name = "substate_track"
version = "0.1.0"
edition = "2021"
publish = false

[dependencies]
indexmap = "1"
hex = "0.4"
