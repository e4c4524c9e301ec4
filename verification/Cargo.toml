[package]
name = "blink_scheduler"
version = "0.1.0"
edition = "2021"
publish = false

[dependencies]
systick-monotonic = "=1.0.1"
rtic-monotonic = "=1.0.0"
stm32g4xx-hal = { version = "=0.0.1", features = ["stm32g431", "rt"] }
panic-halt = "=1.0.0"
