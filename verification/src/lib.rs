//! Core of an e-ink tablet screen streamer.
//!
//! The library covers the streaming engine: device profiles with their pixel
//! and digitizer translators, the byte-level delta encoder with its PNG
//! fallback decision, the stylus event reducer, and the byte-exact wire
//! framing of every packet a client can receive.  The surrounding process
//! (sampling another process's memory, the websocket fan-out, task spawning)
//! lives outside the library and hands it plain byte buffers.

pub mod delta;
pub mod devices;
pub mod packets;
pub mod stream;
pub mod stylus;
pub mod wire;
