[package]
name = "ktx2_tools"
version = "0.1.0"
edition = "2021"
publish = false

[dependencies]
ktx2 = "0.4.0"
zstd = "0.13"
basis-universal = "0.3"
ddsfile = "0.5"
half = "2"
image = { version = "0.24", default-features = false, features = ["png", "jpeg"] }
intel_tex_2 = "0.4"
rayon = "1"
structopt = "0.3"
