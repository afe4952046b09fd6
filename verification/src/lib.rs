//! Verified core of the AlphaSmart NEO tooling: the direct-USB updater
//! protocol, the shared client that drives it, SmartApplet packaging, and the
//! pure parts of the NEO emulator.

pub mod bytes;
pub mod text;
pub mod protocol;
pub mod neo_client;
pub mod catalog;
pub mod checklist;
pub mod manager;
pub mod sdk;
pub mod compiler;
pub mod applets;
pub mod text_screen;
pub mod lcd;
pub mod keyboard;
pub mod recovery_seed;
pub mod domain;
pub mod os_shims;
pub mod host;
pub mod firmware;
pub mod usb_mode;
pub mod gui_bridge;
pub mod memory;
pub mod session;
pub mod device_backup;
pub mod lcd_tools;
pub mod alphaword;
pub mod key_names;
pub mod cli_app;
pub mod gui_keys;
pub mod gui_state;
pub mod applet_state;
pub mod headless;
