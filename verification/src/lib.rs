//! A verified core for a media-player panel applet.
//!
//! The crate models the applet's engine: discovery of media sessions on a
//! message bus, extraction of display-ready player snapshots, deduplication
//! and ordering of the player list, parsing of the audio mixer tool's
//! stream listing, and the two-step volume-resolution chain (native
//! protocol first, mixer fallback second).  All bus, subprocess and
//! network traffic stays outside; the library works on plain values.

pub mod aggregate;
pub mod art;
pub mod audio;
pub mod config;
pub mod music;
pub mod player;
pub mod text;
pub mod ui;
