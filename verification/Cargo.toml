[package]
name = "smt32_project"
version = "0.1.0"
edition = "2021"
publish = false

[dependencies]
rand = { version = "0.8", default-features = false, features = ["small_rng"] }
embassy-stm32 = { version = "0.1", features = ["stm32f411ce", "time-driver-any", "exti", "unstable-pac"] }
embassy-executor = { version = "0.5", features = ["arch-std", "executor-thread", "integrated-timers"] }
embassy-time = "0.3"
cortex-m = "0.7"
