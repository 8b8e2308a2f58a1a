//! DWMend: the verified core of a tiling window manager for Windows 11.
//!
//! The crate holds everything the window manager decides or computes: the
//! layout engine, the workspace and monitor state, rule matching, hotkey and
//! command parsing, and the geometry and timing of the bar, the overview and
//! the notifications. Calls into the operating system are made by the program
//! around it, which hands in plain values and carries out what is handed back.

pub mod ratio;
pub mod rect;
pub mod tree;
pub mod ids;
pub mod nearest;
pub mod bsp;
pub mod monocle;
pub mod window;
pub mod monitor;
pub mod desk;
pub mod toast;
pub mod workspace;
pub mod model;
pub mod state;
pub mod text;
pub mod command;
pub mod hotkey;
pub mod color;
pub mod rules;
pub mod filter;
pub mod config;
pub mod settings;
pub mod bar;
pub mod peek;
pub mod winevent;
pub mod tray;
pub mod frame;
pub mod geometry;
pub mod daemon;
pub mod wire;
pub mod wide;
pub mod handle;
pub mod autostart;
pub mod cli;
pub mod ipc;
pub mod recovery;
pub mod reply;
