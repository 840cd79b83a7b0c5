//! Layout generator for a tiling compositor: per-tag options, the command
//! language that edits them, and the geometry of each arrangement.
//!
//! The crate holds no I/O. A front end decodes protocol events into
//! [`protocol::Event`] values, hands them to [`state::State::event`], and
//! transmits the [`protocol::Request`] values it gets back.

pub mod commands;
pub mod layout;
pub mod numeral;
pub mod options;
pub mod protocol;
pub mod state;
pub mod tags;
pub mod text;
pub mod view;
