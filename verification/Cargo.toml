[package]
name = "xtal"
version = "0.1.0"
edition = "2021"
publish = false

[dependencies]
oxc_allocator = "0.39"
oxc_ast = "0.39"
oxc_codegen = "0.39"
oxc_parser = "0.39"
oxc_semantic = "0.39"
oxc_span = "0.39"
rustyscript = { version = "0.11", default-features = false }
serde = { version = "1", features = ["derive"] }
serde_json = { version = "1", features = ["preserve_order"] }
