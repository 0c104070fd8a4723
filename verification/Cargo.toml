[package]
name = "java_lsp"
version = "0.1.0"
edition = "2021"
publish = false

[dependencies]
serde = { version = "=1.0.229", features = ["derive"] }
serde-xml-rs = "=0.8.2"
clap = { version = "=4.6.7", features = ["derive"] }
tree-sitter = "=0.27.1"
tree-sitter-java = "=0.23.5"
classfile-parser = "=0.3.8"
dirs = "=7.0.0"
jwalk = "=0.9.0"
rayon = "=1.12.0"
tokio = { version = "=1.54.1", features = ["fs", "process", "rt-multi-thread", "macros", "io-std", "io-util", "sync"] }
rc-zip-tokio = "=4.3.1"
postcard = { version = "=1.1.3", features = ["alloc"] }
dashmap = "*"
ropey = "*"
lsp-types = "*"
