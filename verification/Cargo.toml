[package]
name = "esp32s3_i2s_mic_idf"
version = "0.1.0"
edition = "2021"
publish = false

[dependencies]
anyhow = "1"
embedded-svc = "0.28"
embedded-websocket = "0.9"
esp-idf-hal = "0.45"
esp-idf-svc = "0.51"
esp-idf-sys = "0.36"
futures-util = "0.3"
heapless = "0.8"
httparse = "1"
log = "0.4"
once_cell = "1"
serialport = { version = "4", default-features = false }
tokio = { version = "1", features = ["rt", "net", "time", "sync", "macros"] }
tokio-tungstenite = "0.24"
