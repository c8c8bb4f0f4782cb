//! WhatsApp Lite: the rules of a small desktop client that shows WhatsApp Web in
//! a window of its own and lives in the tray.
//!
//! The modules decide and compute; windows, files, the registry and the clock
//! belong to the program around them.

pub mod adoption;
pub mod downloads;
pub mod encoding;
pub mod file_names;
pub mod launch;
pub mod maintenance;
pub mod navigation;
pub mod notification;
pub mod patches;
pub mod paths;
pub mod power;
pub mod profiles;
pub mod quiet_hours;
pub mod save_dialog;
pub mod slug;
pub mod text;
pub mod tray;
