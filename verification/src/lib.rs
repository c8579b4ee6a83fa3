//! Client-side RPC runtime for a document editor whose text engine lives in
//! a separate backend process, reached over a newline-delimited JSON byte
//! stream.
//!
//! The crate is organised around the wire protocol: `json` holds the value
//! model with its verified serializer and parser, `codec` turns one line of
//! text into a typed frame and back, `router` maps notification frames to
//! typed domain operations, `tracker` correlates responses with the
//! requests that caused them, and `client` ties these together into the
//! pure step function the I/O layer drives. Around the protocol sit the
//! editor's models: the workspace and its event handling in `app_state`,
//! the project tree in `file_tree`, the watcher's routing decisions in
//! `watcher`, save decisions in `delegate`, color packing in `theme_color`,
//! and the status bar's word count in `text_count`.

pub mod app_state;
pub mod client;
pub mod codec;
pub mod delegate;
pub mod edit_view;
pub mod file_tree;
pub mod json;
pub mod router;
pub mod text_count;
pub mod theme_color;
pub mod tracker;
pub mod watcher;
