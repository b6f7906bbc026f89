[package]
name = "kompass"
version = "0.1.0"
edition = "2021"
publish = false

[dependencies]
clap = { version = "4", features = ["derive"] }
ignore = "0.4"
oxc_allocator = "0.143.0"
oxc_ast = "0.143.0"
oxc_ast_visit = "0.143.0"
oxc_diagnostics = "0.143.0"
oxc_parser = "0.143.0"
oxc_span = "0.143.0"
oxc_syntax = "0.143.0"
proc-macro2 = { version = "1", features = ["span-locations"] }
ruff_python_ast = "0.0.10"
ruff_python_parser = "0.0.10"
ruff_source_file = "0.0.10"
ruff_text_size = "0.0.10"
serde = { version = "1", features = ["derive"] }
serde_json = "1"
syn = { version = "2", features = ["full", "visit"] }
