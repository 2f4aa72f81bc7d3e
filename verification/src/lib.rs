//! The rules of a WiFi manager for small boards, with machine-checked contracts.

pub mod ap;
pub mod error;
pub mod header;
pub mod http;
pub mod nvs;
pub mod sender;
pub mod session;
pub mod structs;
pub mod text;
pub mod update;
pub mod upload;
