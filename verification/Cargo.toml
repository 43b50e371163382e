[package]
name = "manse"
version = "0.1.0"
edition = "2021"
publish = false

[dependencies]
nanoid = "*"
rustix = { version = "*", features = ["event", "fs", "pipe", "process", "pty", "stdio", "termios", "thread", "time"] }
rustix-openpty = "*"
libc = "*"
clap = { version = "*", features = ["derive", "env"] }
signal-hook = "*"
log = "*"
env_logger = "*"
