[package]
name = "mailbox"
version = "0.1.0"
edition = "2021"
publish = false

[dependencies]
mailparse = "*"
rusqlite = { version = "*", features = ["bundled"] }
imap = "*"
native-tls = "*"
lettre = "*"
