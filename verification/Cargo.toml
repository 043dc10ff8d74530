[package]
name = "markitup"
version = "0.1.0"
edition = "2021"
publish = false

[dependencies]
zip = "=8.6.0"
docx-rust = "=0.1.11"
quick-xml = "=0.31.0"
csv = "=1.4.0"
infer = "=0.22.0"
base64 = "=0.23.1"
chrono = "=0.4.45"
html2md = "=0.2.17"
ooxml = "=0.2.8"
serde_json = "=1.0.151"
ureq = "=2.12.1"
hound = "=3.5.1"
symphonia = "=0.5.5"
clap = "=4.6.7"
