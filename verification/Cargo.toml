[package]
name = "audiobook_chapterizer"
version = "0.1.0"
edition = "2021"
publish = false

[dependencies]
arrayvec = "0.7"
chrono = "0.4"
clap = { version = "4", features = ["derive"] }
color-eyre = "0.6"
crossbeam = "0.8"
env_logger = "0.10"
itertools = "0.10"
lazy_static = "1"
log = "0.4"
num-rational = "0.4"
num-traits = "0.2"
ordered-float = "3"
regex = "1"
serde = { version = "1", features = ["derive"] }
serde_json = "1"
serde_with = "2"
symphonia = { version = "0.5", features = ["mp3", "aac", "isomp4"] }
text2num = "*"
unindent = "0.2"
vosk = "*"
