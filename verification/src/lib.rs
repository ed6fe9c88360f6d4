//! The logic of a minimize-to-tray utility for Hyprland.
//!
//! A window is parked on a hidden workspace, and a tray icon brings it back. The modules here
//! decide; whoever uses them talks to Hyprland and to the session bus, reads files, and hands
//! over what came back.

pub mod action;
pub mod command;
pub mod dbus_menu;
pub mod desktop;
pub mod hypr;
pub mod menu;
pub mod notifier;
pub mod number;
pub mod order;
pub mod resolve;
pub mod session;
pub mod text;
pub mod tray;
pub mod tray_menu;
pub mod watcher;
