[package]
name = "asciicast"
version = "0.1.0"
edition = "2021"
publish = false

[dependencies]
anyhow = "1"
chrono = { version = "0.4", features = ["serde"] }
clap = { version = "4", features = ["derive"] }
filedescriptor = "0.8"
libc = "0.2"
portable-pty = "0.9"
serde = { version = "1", features = ["derive"] }
serde_json = "1"
shell-words = "1"
tempfile = "3"
termios = "0.3"
termwiz = "0.23"
winapi = { version = "0.3", features = ["consoleapi", "wincon", "winnls", "winuser"] }
