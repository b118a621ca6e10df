[package]
name = "iai_callgrind"
version = "0.1.0"
edition = "2021"
publish = false

[dependencies]
anyhow = "=1.0.104"
clap = { version = "=4.6.7", features = ["derive", "env"] }
cty = "=0.2.2"
derive_more = { version = "*", features = ["as_ref", "deref", "deref_mut"] }
log = "=0.4.34"
proc-macro-error2 = "*"
proc-macro2 = "1"
quote = "1"
serde = { version = "=1.0.229", features = ["derive"] }
serde_json = "=1.0.154"
shlex = "=1.3.0"
syn = { version = "2", features = ["full", "extra-traits"] }
version-compare = "=0.2.1"
