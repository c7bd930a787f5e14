[package]
name = "facet_filter"
version = "0.1.0"
edition = "2021"
publish = false

[dependencies]
anyhow = "1.0"
heed = "0.10"
log = "0.4"
num-traits = "0.2"
pest = "2.1"
pest_derive = "2.1"
roaring = "0.6"
