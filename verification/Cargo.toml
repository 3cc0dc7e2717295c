[package]
name = "amm_core"
version = "0.1.0"
edition = "2021"
publish = false

[dependencies]
primitive-types = "=0.13.1"
borsh = "=1.8.1"
anchor-lang = { version = "=0.31.2", features = ["init-if-needed"] }
bytemuck = { version = "=1.25.2", features = ["derive", "min_const_generics"] }
anchor-spl = { version = "=0.31.2", default-features = false, features = ["token", "token_2022"] }

[dev-dependencies]
proptest = "=1.12.0"
