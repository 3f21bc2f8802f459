[package]
name = "wire_thermometer"
version = "0.1.0"
edition = "2021"
publish = false

[dependencies]
onewire = "0.3"
embedded-hal = "0.2"
heapless = "0.5"
embedded-graphics = "0.6"
ssd1331 = "0.2"
cortex-m = "0.6"
cortex-m-rt = "0.6"
stm32f4xx-hal = { version = "0.8", features = ["rt", "stm32f411"] }
