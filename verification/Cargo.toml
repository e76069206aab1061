[package]
name = "keynest"
version = "0.1.0"
edition = "2021"
publish = false

[dependencies]
argon2 = "0.5"
chacha20poly1305 = "0.10"
chrono = "0.4"
getrandom = "0.3"
zeroize = "1"
clap = { version = "4", features = ["derive", "env"] }
directories = "*"
rpassword = "*"
windows-sys = { version = "*", features = ["Win32_Storage_FileSystem", "Win32_Foundation"] }
