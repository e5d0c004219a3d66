[package]
name = "doomfront"
version = "0.1.0"
edition = "2021"
publish = false

[dependencies]
arrayvec = "=0.7.8"
chumsky = { version = "=0.9.3", default-features = false, features = ["std"] }
rowan = "=0.15.19"
smallvec = { version = "=1.16.4", features = ["const_generics"] }
