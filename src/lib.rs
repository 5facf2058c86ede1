//! Peer-to-peer streaming of one application's audio.
//!
//! The sharer reblocks captured audio into fixed frames, encodes them, and
//! fans the packets out to every connected listener; each listener reads the
//! length-prefixed packets back, decodes them and plays them through a ring
//! buffer. This crate holds the parts of that pipeline that decide: the frame
//! format, the reblocker, the wire framing, the ticket text, the source list,
//! the session slots and the playback ring.

pub mod format;
pub mod playback;
pub mod reblock;
pub mod session;
pub mod sources;
pub mod ticket;
pub mod wire;
