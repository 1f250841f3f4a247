[package]
name = "libchess"
version = "0.1.0"
edition = "2021"
publish = false

[dependencies]
colored = "=2.2.0"
lazy_static = "=1.5.1"
rand = "=0.8.8"
regex = "=1.13.1"
textwrap = "=0.16.4"
thiserror = "=1.0.69"

[dev-dependencies]
unindent = "=0.2.4"
