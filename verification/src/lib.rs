//! Verified core of an SSH terminal client: the VT screen grid, selection
//! and input encoding, highlighting rules and the host/folder tree.

pub mod text;
pub mod cell;
pub mod rows;
pub mod grid_model;
pub mod grid;
pub mod vt;
pub mod input;
pub mod highlight;
pub mod config;
pub mod net;
pub mod security;
pub mod terminal;
pub mod terminal_app;
pub mod forms;
pub mod render;
pub mod validation;
pub mod window;
pub mod icmp;
pub mod palette;
