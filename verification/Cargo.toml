[package]
name = "bundler_core"
version = "0.1.0"
edition = "2021"
publish = false

[dependencies]
sourcemap = "*"
swc_ecma_ast = "*"
anyhow = "*"
