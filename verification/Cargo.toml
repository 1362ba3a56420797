[package]
name = "squish"
version = "0.1.0"
edition = "2021"
publish = false

[dependencies]
byteorder = "=1.5.0"
libm = "=0.2.16"
rayon = "=1.12.0"
clap = { version = "4", features = ["derive"] }
ddsfile = "0.5"
png = "0.17"
jpeg-decoder = "0.3"
