[package]
name = "laser_harp"
version = "0.1.0"
edition = "2021"
publish = false

[dependencies]
cpal = "0.15"
crossbeam-channel = "0.5"
macroquad = "0.4"
midir = "0.10"
