[package]
name = "evalvana_editor"
version = "0.1.0"
edition = "2021"
publish = false

[dependencies]
ropey = { version = "1", default-features = false }
unicode-segmentation = "1"
iced_native = "0.5"
ordered-float = "3"
