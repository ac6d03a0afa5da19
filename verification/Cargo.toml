[package]
name = "mini_transformer"
version = "0.1.0"
edition = "2021"
publish = false

[dependencies]
actix-web = { version = "4", default-features = false, features = ["macros"] }
half = "2"
packed_simd_2 = "0.3"
rand = "0.9"
