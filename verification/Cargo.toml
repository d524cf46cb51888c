[package]
name = "lexer"
version = "0.1.0"
edition = "2021"
publish = false

[dependencies]
llvm-sys = "*"
log = "0.4"
mlir-sys = "*"
thiserror = "1"
