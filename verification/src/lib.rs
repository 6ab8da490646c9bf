//! The engine of a terminal file manager: ordering of names, directory
//! snapshots with their viewport, the cache of snapshots, selection and
//! clipboard, search, and the state machine that drives copy, move and delete.

pub mod action;
pub mod buffer;
pub mod cmdline;
pub mod config;
pub mod dir;
pub mod file;
pub mod keys;
pub mod nav;
pub mod order;
pub mod paths;
pub mod reg;
pub mod text;
pub mod transfer;
pub mod utils;
pub mod view;
