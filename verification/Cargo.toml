[package]
name = "redscript_dap"
version = "0.0.6"
edition = "2021"
publish = false

[dependencies]
dap = "0.4.1-alpha1"
parking = "2"
slab = "0.4"
static_assertions = "1.1"
thiserror = "1"
