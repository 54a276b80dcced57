[package]
name = "game_ledger"
version = "0.1.0"
edition = "2021"
publish = false

[dependencies]
ink = { version = "4", default-features = false, features = ["std"] }
openbrush = { version = "*", default-features = false, features = ["std", "psp34", "ownable"] }
