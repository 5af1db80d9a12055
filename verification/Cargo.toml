[package]
name = "tft_progress"
version = "0.1.0"
edition = "2021"
publish = false

[dependencies]
arrayvec = { version = "=0.5.2", default-features = false }
numtoa = "=0.2.4"
embedded-graphics = "=0.7.0-alpha.2"
embedded-hal = "=0.2.7"
cortex-m = "=0.7.10"
cortex-m-rt = "=0.6.15"
stm32f4xx-hal = { version = "=0.9.0", features = ["stm32f401", "rt"] }

[dev-dependencies]
st7735-lcd = "=0.8.0-alpha.1"
