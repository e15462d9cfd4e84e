[package]
name = "tilephys"
version = "0.1.0"
edition = "2021"
publish = false

[dependencies]
smallset = "=0.1.1"
quad-rand = "=0.2.3"
hecs = "=0.11.2"
macroquad = "=0.4.16"
enum-map = "=3.1.0"
