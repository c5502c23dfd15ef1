[package]
name = "htsget"
version = "0.1.0"
edition = "2021"
publish = false

[dependencies]
crypt4gh = "*"
base64 = "*"
noodles-bam = "*"
noodles-bcf = "*"
noodles-bgzf = "*"
noodles-csi = "*"
noodles-sam = "*"
noodles-core = "*"
serde = { version = "*", features = ["derive"] }
serde_json = "*"
