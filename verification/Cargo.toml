[package]
name = "singeros"
version = "0.1.0"
edition = "2021"
publish = false

[dependencies]
chrono = { version = "0.4", features = ["serde"] }
chrono-tz = "0.10"
serde = { version = "1", features = ["derive"] }
serde_json = "1"
thiserror = "2"
tokio = { version = "1", features = ["rt", "macros", "net", "fs"] }
axum = "0.8"
axum-server = { version = "*", features = ["tls-rustls"] }
gloo-net = "0.6"
gloo-timers = { version = "0.3", features = ["futures"] }
js-sys = "0.3"
wasm-bindgen = "0.2"
wasm-bindgen-futures = "0.4"
web-sys = { version = "0.3", features = ["AnalyserNode", "AudioContext", "AudioNode", "AudioParam", "AudioDestinationNode", "BaseAudioContext", "BiquadFilterNode", "BiquadFilterType", "Blob", "BlobEvent", "DynamicsCompressorNode", "Event", "EventTarget", "GainNode", "MediaDeviceInfo", "MediaDeviceKind", "MediaDevices", "MediaRecorder", "MediaStream", "MediaStreamAudioDestinationNode", "MediaStreamAudioSourceNode", "MediaStreamConstraints", "MediaStreamTrack", "Navigator", "Window"] }
leptos = { version = "*", features = ["csr"] }
cpal = "*"
