//! The playback engine of a desktop audio player, proved with Verus.
//!
//! The engine decides; a host program performs. Each function takes what the
//! host has observed (the sink's flags, the outcome of a seek, an HTTP status),
//! moves the playback state, and says what the host has to do next.
pub mod cache;
pub mod clock;
pub mod commands;
pub mod double;
pub mod laws;
pub mod models;
pub mod player;
pub mod rounding;
pub mod single;
pub mod source;
pub mod text;
pub mod timing;
