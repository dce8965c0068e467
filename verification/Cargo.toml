[package]
name = "porter"
version = "0.1.0"
edition = "2021"
publish = false

[dependencies]
md5 = "=0.8.1"
s2 = "=0.2.0"
iri-string = "=0.7.14"
serde = { version = "=1.0.229", features = ["derive"] }
serde_json = "=1.0.154"
anyhow = "=1.0.104"
bytes = "=1.12.1"
glam = "=0.34.2"
png = "=0.18.1"
jpeg-encoder = "=0.7.1"
zune-jpeg = "=0.5.15"
zune-core = "=0.5.3"
regex = "=1.13.1"
blake3 = "=1.8.7"
clap = { version = "=4.6.7", features = ["derive", "env"] }
humantime = "=2.4.0"
bytesize = "=2.7.0"
bytemuck = "=1.25.2"
tokio = { version = "1", features = ["rt-multi-thread", "macros", "net", "signal"] }
axum = "0.8"
tower-http = { version = "0.6", features = ["cors", "trace"] }
futures = "0.3"
async-trait = "0.1"
async-recursion = "1"
quick_cache = "*"
moka = { version = "*", features = ["future"] }
dotenvy = "0.15"
tracing = "0.1"
metrics = "*"
geojson = "*"
