[package]
name = "asm_annotate"
version = "0.1.0"
edition = "2021"
publish = false

[dependencies]
capstone = "0.12"
clap = { version = "4", features = ["derive"] }
color-eyre = "0.6"
colored = "2"
cpp_demangle = "0.4"
crossterm = "0.28"
env_logger = "0.11"
gimli = "0.31"
goblin = "0.9"
log = "0.4"
notify = "6"
ratatui = "0.29"
skim = "0.10"
tui-logger = "0.14"
unicode-width = "0.2"
