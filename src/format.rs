//! The audio format that every stage of the pipeline agrees on.

use vstd::prelude::*;

verus! {

/// Sample rate of every frame, in hertz.
pub const SAMPLE_RATE: u32 = 48_000;

/// Interleaved channels per frame (left, right).
pub const CHANNELS: u16 = 2;

/// Samples per channel in one frame: 20 ms at `SAMPLE_RATE`.
pub const FRAME_SIZE: usize = 960;

/// Interleaved samples in one frame: `FRAME_SIZE` times `CHANNELS`.
pub const SAMPLES_PER_FRAME: usize = FRAME_SIZE * 2;

/// Largest encoded packet that may travel on the wire, in bytes.
pub const MAX_PACKET_SIZE: usize = 4000;

/// Frames that the capture side may queue before it starts dropping.
pub const FRAME_CHANNEL_CAPACITY: usize = 64;

/// Packets that a listener may queue before the decoder takes them.
pub const PACKET_CHANNEL_CAPACITY: usize = 64;

/// Packets that the sharer's broadcast bus buffers for slow listeners.
pub const BUS_CAPACITY: usize = 50;

/// Samples held by the playback ring: ten frames, that is 200 ms.
pub const RING_CAPACITY: usize = SAMPLES_PER_FRAME * 10;

/// Application-layer protocol identifier advertised by both peers.
/// The bytes spell `/hearme/audio/1`.
pub const ALPN: [u8; 15] = [47, 104, 101, 97, 114, 109, 101, 47, 97, 117, 100, 105, 111, 47, 49];

} // verus!
