[package]
name = "objview"
version = "0.1.0"
edition = "2021"
publish = false

[dependencies]
object = { version = "=0.40.0", features = ["write"] }
iced-x86 = { version = "=1.21.0", default-features = false, features = ["std", "decoder", "intel"] }
symbolic-common = "=13.9.0"
symbolic-demangle = { version = "=13.9.0", default-features = false, features = ["cpp", "msvc", "rust"] }
