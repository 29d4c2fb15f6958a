[package]
name = "jonitor"
version = "1.0.0"
edition = "2021"
publish = false

[dependencies]
axum = { version = "0.7", features = ["ws"] }
futures-util = "0.3"
serde = { version = "1", features = ["derive"] }
serde_json = "1"
tokio = { version = "1", features = ["rt", "net", "sync", "signal", "macros", "time"] }
tower-http = { version = "0.5", features = ["fs"] }
windows-sys = { version = "0.52", features = ["Win32_Foundation", "Win32_System_Memory", "Win32_System_Console", "Win32_System_SystemInformation"] }
