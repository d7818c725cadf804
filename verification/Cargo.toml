[package]
name = "adb_sync"
version = "0.1.0"
edition = "2021"
publish = false

[dependencies]
anyhow = "=1.0.104"
bincode = "=2.0.1"
byteorder = "=1.5.0"
bytesize = "=1.3.3"
clap = { version = "=4.6.7", features = ["derive"] }
colored = "=2.2.0"
crc = "=3.4.0"
fern = { version = "=0.7.1", features = ["colored"] }
filetime = "=0.2.29"
humantime = "=2.4.0"
jwalk = "=0.8.1"
log = "=0.4.34"
num_cpus = "1"
pathdiff = "=0.2.3"
pnet_datalink = "*"
readwrite = "=0.2.0"
zstd = { version = "0.13", features = ["zstdmt"] }
