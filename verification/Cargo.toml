[package]
name = "sensitive"
version = "0.1.0"
edition = "2021"
publish = false

[dependencies]
libc = "0.2"
unicode-normalization = "0.1"
winapi = { version = "0.3", features = ["memoryapi", "minwindef", "ntdef", "sysinfoapi", "winnt"] }

[dev-dependencies]
rand = "0.9"
rand_xoshiro = "0.7"
