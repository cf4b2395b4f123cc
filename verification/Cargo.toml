[package]
name = "html_bench"
version = "0.1.0"
edition = "2021"
publish = false

[dependencies]
allocation-counter = "*"
comfy-table = { version = "*", default-features = false }
ureq = { version = "*", default-features = false }
url = "*"
nanohtml2text = "*"
htmd = "*"
mdka = "*"
html2md = "*"
html2md-rs = "*"
html2text = "*"
august = "*"
