[package]
name = "crossterm"
version = "0.29.0"
edition = "2021"
publish = false

[dependencies]
crossterm_winapi = "0.9.1"
filedescriptor = "0.8"
futures-core = "0.3"
libc = "0.2"
mio = { version = "1.0", features = ["os-poll", "os-ext"] }
rustix = { version = "1", features = ["process", "stdio", "termios"] }
signal-hook = "0.3.17"
signal-hook-mio = { version = "0.2.4", features = ["support-v1_0"] }
