[package]
name = "asset_importer_rs"
version = "0.3.0"
edition = "2021"
publish = false

[dependencies]
base64 = "0.21"
urlencoding = "2"
dae-parser = "*"
tobj = "*"
gltf = "*"
image = { version = "*", default-features = false, features = ["png", "jpeg", "bmp", "gif", "webp"] }
serde_json = "1"
enumflags2 = "0.7"
bytemuck = "1"
