[package]
name = "rdkit_ffi_build"
version = "0.1.0"
edition = "2021"
publish = false

[dependencies]
bindgen = "0.69"
pkg-config = "0.3"
walkdir = "2"
