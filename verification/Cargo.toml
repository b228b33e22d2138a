[package]
name = "mdbook_verified"
version = "0.1.0"
edition = "2021"
publish = false

[dependencies]
regex = "=1.13.1"
sha2 = "=0.10.9"
hex = "=0.4.3"
shlex = "=1.3.0"
url = "=2.5.8"
semver = "=1.0.28"
topological-sort = "=0.2.2"
serde = { version = "=1.0.229", features = ["derive"] }
serde_json = "=1.0.154"
toml = "=1.2.1"
anyhow = "=1.0.104"
pulldown-cmark = "=0.13.6"
handlebars = "=6.4.4"
elasticlunr-rs = "=3.1.0"
tempfile = "=3.27.0"
html5ever = "=0.40.1"
font-awesome-as-a-crate = "=0.3.1"
ammonia = "=4.2.4"
pulldown-cmark-to-cmark = "*"
