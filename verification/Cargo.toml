[package]
name = "find_duplicates"
version = "0.1.0"
edition = "2021"
publish = false

[dependencies]
adler32 = "1"
atty = "0.2"
indexmap = "2"
rayon = "1"
