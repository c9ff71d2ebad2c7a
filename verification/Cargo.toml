[package]
name = "render3d"
version = "0.1.0"
edition = "2021"
publish = false

[dependencies]
windows = { version = "=0.51.1", features = ["Foundation_Numerics", "Graphics", "UI_Composition", "UI_Composition_Desktop", "Win32_Foundation", "Win32_Graphics_Gdi", "Win32_System_LibraryLoader", "Win32_System_WinRT_Composition", "Win32_UI_WindowsAndMessaging"] }
