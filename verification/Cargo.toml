[package]
name = "widget_layers"
version = "0.1.0"
edition = "2021"
publish = false

[dependencies]
alot = "=0.3.2"
intentional = "=0.1.1"
kludgine = "=0.8.0"
