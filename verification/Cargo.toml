[package]
name = "ssd1320"
version = "0.1.0"
edition = "2021"
publish = false

[dependencies]
display-interface = "0.4"
display-interface-spi = "0.4"
embedded-graphics-core = "0.3"
embedded-hal = "0.2"
cortex-m = "0.7"
cortex-m-rt = "0.6"
panic-halt = "0.2"
stm32f4xx-hal = { version = "0.9", features = ["rt", "stm32f411"] }
