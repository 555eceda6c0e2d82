[package]
name = "kiki"
version = "0.1.0"
edition = "2021"
publish = false

[dependencies]
anyhow = "=1.0.104"
async-trait = "=0.1.92"
bytes = "=1.12.1"
fuse3 = { version = "=0.10.0", features = ["tokio-runtime", "unprivileged"] }
futures = "=0.3.34"
gix-hash = { version = "=0.28.1", features = ["sha1"] }
gix-object = { version = "=0.66.1", features = ["sha1"] }
jj-lib = { version = "=0.40.0", default-features = false }
libc = "=0.2.191"
nfsserve = "=0.11.0"
parking_lot = "=0.12.5"
prost = "=0.14.4"
redb = "=4.4.0"
tempfile = "=3.27.0"
thiserror = "=2.0.21"
tokio = { version = "=1.54.1", features = ["fs", "io-std", "io-util", "macros", "net", "process", "rt-multi-thread", "sync", "time"] }
tonic = { version = "=0.14.9", default-features = false }
tracing = "=0.1.44"
