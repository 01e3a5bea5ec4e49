[package]
name = "libgraphql-parser"
version = "0.1.0"
edition = "2021"
publish = false

[dependencies]
memchr = "2"
thiserror = "*"
graphql-parser = "0.4"
