//! A sandbox filesystem: overlay resolution, metadata overrides, access
//! policy, pending authorization and the session that ties them together.
//!
//! The crate holds every decision; mounting, sockets, processes and terminals
//! belong to the program around it, which hands plain values in and performs
//! the actions that come out.

pub mod attr;
pub mod authorize;
pub mod cli;
pub mod command;
pub mod decision;
pub mod dispatch;
pub mod error;
pub mod forward;
pub mod fs;
pub mod grant;
pub mod grant_allow;
pub mod host;
pub mod hostfs;
pub mod ipc;
pub mod laws;
pub mod lifecycle;
pub mod log;
pub mod metadata;
pub mod metadata_request;
pub mod operation;
pub mod overlay;
pub mod path;
pub mod pending;
pub mod policy;
pub mod process_info;
pub mod registry;
pub mod runtime;
pub mod sandbox;
pub mod session;
pub mod table;
pub mod text;
pub mod time;
pub mod tui;
