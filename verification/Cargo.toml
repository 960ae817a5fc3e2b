[package]
name = "split_keyboard"
version = "0.1.0"
edition = "2021"
publish = false

[dependencies]
keyberon = "*"
usb-device = "0.2"
cortex-m = "0.7"
cortex-m-rtic = "1"
stm32f1xx-hal = { version = "0.10", features = ["rt", "stm32f103", "medium", "stm32-usbd"] }
defmt = "*"
defmt-rtt = "*"
panic-probe = { version = "*", features = ["print-defmt"] }
