[package]
name = "adapto-lsp"
version = "0.1.0"
edition = "2021"
publish = false

[dependencies]
adapto_parser = "*"
adapto_compiler = "*"
dashmap = "*"
tokio = { version = "1", features = ["io-std", "macros", "rt-multi-thread"] }
tower-lsp = "0.20"
