//! A grid-button MIDI controller as a touchable picture of a tiling window
//! manager's workspaces: every lit pad is a window, coloured by its
//! application class, and a press focuses the window or switches workspace.
//!
//! The library holds the decisions; connections to the window manager and to
//! the device belong to the program around it.

pub mod config;
pub mod i3;
pub mod midi;
pub mod program;
pub mod text;
pub mod ui;
