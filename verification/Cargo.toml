[package]
name = "chip8_term"
version = "0.1.0"
edition = "2021"
publish = false

[dependencies]
termion = "=1.5.6"
chip8 = "=0.1.1"
log4rs = "=1.4.0"
