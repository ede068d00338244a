[package]
name = "easy_repl"
version = "0.1.0"
edition = "2021"
publish = false

[dependencies]
trie-rs = "*"
shell-words = "*"
textwrap = "*"
rustyline = "*"
rustyline-derive = "*"
