[package]
name = "nanoss"
version = "0.1.0"
edition = "2021"
publish = false

[dependencies]
anyhow = "=1.0.104"
blake3 = "=1.8.7"
clap = { version = "=4.6.7", default-features = false, features = ["std", "derive", "help", "usage", "error-context"] }
grass = { version = "=0.13.4", default-features = false }
image = { version = "=0.25.10", default-features = false, features = ["png", "jpeg", "gif", "webp", "bmp", "tiff"] }
lightningcss = { version = "=1.0.0-alpha.65", default-features = false, features = ["grid"] }
minijinja = { version = "=2.24.0", features = ["loader"] }
notify = "=8.2.1"
# Later versions use another `cssparser` than `lightningcss` does.
parcel_selectors = "=0.28.2"
pulldown-cmark = { version = "=0.13.6", default-features = false, features = ["html"] }
rayon = "=1.12.0"
regex = "=1.13.1"
reqwest = { version = "=0.12.28", default-features = false, features = ["blocking"] }
rswind = "=0.0.1-alpha.1"
semver = "=1.0.28"
serde = { version = "=1.0.229", features = ["derive"] }
# The values of a page pass through a text: floats come back as they were, and a value
# may be nested as deeply as its file allows.
serde_json = { version = "=1.0.154", features = ["float_roundtrip", "unbounded_depth"] }
serde_yaml = "=0.9.34"
syntect = { version = "=5.3.0", default-features = false, features = ["parsing", "default-syntaxes", "default-themes", "html", "regex-fancy"] }
tiny_http = "=0.12.0"
toml = "=0.9.12"
tracing = { version = "=0.1.44", default-features = false, features = ["std"] }
walkdir = "=2.5.0"
wasmtime = { version = "=41.0.4", default-features = false, features = ["component-model", "cranelift", "runtime", "std"] }
