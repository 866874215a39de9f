[package]
name = "adc_sampler"
version = "0.1.0"
edition = "2021"
publish = false

[dependencies]
ads1x1x = "*"
assign-resources = "*"
cortex-m-rt = "*"
defmt = "*"
defmt-rtt = "*"
embassy-executor = "*"
embassy-futures = "*"
embassy-rp = { version = "*", features = ["rp2040"] }
embassy-time = "*"
panic-probe = "*"
static_cell = "*"
