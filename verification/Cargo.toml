[package]
name = "freedsp"
version = "0.1.0"
edition = "2021"
publish = false

[dependencies]
hidapi = { version = "2", default-features = false, features = ["linux-native-basic-udev"] }
open = "5"
serde = { version = "1", features = ["derive"] }
windows = { version = "0.58", features = ["Win32_Devices_HumanInterfaceDevice", "Win32_Foundation", "Win32_Storage_FileSystem", "Win32_Security"] }
