//! Verified core of the PiSugar BLE Wi-Fi configuration service: request framing,
//! request parsing, custom command/info bookkeeping, UUID formatting and the
//! text processing behind Wi-Fi configuration.
pub mod text;
pub mod proto;
pub mod config;
pub mod custom_command;
pub mod uuid;
pub mod wifi;
pub mod custom_info;
pub mod status;
pub mod exec;
pub mod wifi_flow;
pub mod gatt;
pub mod ble;
