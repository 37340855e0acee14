[package]
name = "bg_uploader"
version = "0.1.0"
edition = "2021"
publish = false

[dependencies]
indexmap = { version = "=2.14.2", features = ["serde"] }
serde = { version = "1", features = ["derive"] }
serde_json = "=1.0.154"
sha2 = "0.10"
async-trait = "0.1"
futures = "0.3"
libc = "0.2"
log = "0.4"
pollster = "=1.0.1"
redb = "=2.6.4"
reqwest = { version = "0.12", default-features = false, features = ["blocking"] }
jni = "0.21"
android_logger = "*"
nyquest = { version = "=0.5.0", features = ["blocking-stream"] }
nyquest-backend-nsurlsession = { version = "=0.5.0", features = ["blocking-stream"] }
console_error_panic_hook = "0.1"
js-sys = "0.3"
wasm-bindgen = "0.2"
wasm-bindgen-futures = "0.4"
wasm-bindgen-file-reader = "1"
rexie = "=0.6.2"
web-sys = { version = "0.3", features = ["Blob", "EventTarget", "File", "Headers", "ProgressEvent", "Request", "RequestInit", "RequestMode", "Response", "Window", "WorkerGlobalScope", "XmlHttpRequest", "XmlHttpRequestEventTarget", "XmlHttpRequestUpload", "console"] }
