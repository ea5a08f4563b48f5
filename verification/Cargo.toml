[package]
name = "todo_makepad"
version = "0.1.0"
edition = "2021"
publish = false

[dependencies]
makepad-widgets = "=0.4.0"
