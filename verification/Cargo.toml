[package]
name = "orpheus_native"
version = "0.1.0"
edition = "2021"
publish = false

[dependencies]
block2 = "0.6"
libc = "0.2"
napi = "3"
napi-derive = "3"
objc2 = "0.6"
objc2-app-kit = "0.3"
objc2-core-foundation = "0.3"
objc2-foundation = "0.3"
objc2-media-player = "0.3"
rusqlite = { version = "0.37", features = ["bundled", "collation"] }
threadpool = "1"
windows = { version = "0.62", features = ["Foundation", "Media", "Media_Playback", "Storage_Streams"] }
