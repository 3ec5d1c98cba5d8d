[package]
name = "stm32f042"
version = "0.1.0"
edition = "2021"
publish = false

[dependencies]
vcell = "0.1"
cortex-m = "0.7"
cortex-m-rt = "0.7"
bare-metal = "0.2"
