[package]
name = "rmk_matrix"
version = "0.1.0"
edition = "2021"
publish = false

[dependencies]
embassy-time = { version = "=0.4.0", features = ["std"] }
embassy-executor = { version = "=0.7.0", features = ["arch-std", "executor-thread"] }
embedded-hal = "=1.0.0"
embedded-hal-async = "=1.0.0"
embassy-futures = "=0.1.2"
heapless = "=0.8.0"
embassy-stm32 = { version = "=0.2.0", features = ["stm32g474re"] }
