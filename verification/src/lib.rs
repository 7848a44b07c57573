//! A terminal client for the Codex app-server that shows answers first and activity on demand.
//!
//! - [`json`] and [`codec`] hold the values that are exchanged with the server, and their text;
//!   [`text`] holds what is needed of texts.
//! - [`backend`] is the transport: what is written to the server, what is read from it, and how its
//!   process is ended.
//! - [`conversation`] is what is displayed, [`screen`] how it is laid out.
//! - [`requests`] describes what the server asks of the user, and makes answers of what they enter.
//! - [`session`], [`keys`] and [`terminal`] are the session at the terminal: messages, commands, keys.
//! - [`options`] reads the command line.
//! - [`quiet`] is the tool server that runs commands without showing their output.

pub mod backend;
pub mod codec;
pub mod conversation;
pub mod json;
pub mod keys;
pub mod options;
pub mod quiet;
pub mod requests;
pub mod screen;
pub mod session;
pub mod terminal;
pub mod text;
