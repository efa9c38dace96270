[package]
name = "bevy_embedded_assets"
version = "0.1.0"
edition = "2021"
publish = false

[dependencies]
bevy = { version = "0.15", default-features = false, features = ["bevy_asset"] }
bevy_app = { version = "0.15", default-features = false }
bevy_asset = { version = "0.15", default-features = false }
bevy_ecs = { version = "0.15", default-features = false }
futures-io = "0.3"
futures-lite = "2"
log = "0.4"
thiserror = "2"
