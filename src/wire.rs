//! The wire format between sharer and listener: each encoded frame travels
//! as a two-byte little-endian length followed by exactly that many bytes.

use crate::format::MAX_PACKET_SIZE;
use vstd::prelude::*;

verus! {

/// Why a length cannot stand in a packet header.
#[derive(PartialEq, Eq, Structural, Debug, Clone, Copy)]
pub enum FramingError {
    /// A length of zero: the wire carries no empty packets.
    EmptyPacket,
    /// A length above `MAX_PACKET_SIZE`.
    OversizedPacket,
}

/// A packet of `n` bytes may travel on the wire.
pub open spec fn valid_packet_len(n: int) -> bool {
    1 <= n <= MAX_PACKET_SIZE
}

/// The error for a length `n` that may not travel on the wire.
pub open spec fn length_error(n: int) -> FramingError {
    if n == 0 {
        FramingError::EmptyPacket
    } else {
        FramingError::OversizedPacket
    }
}

/// The two header bytes for a length, least significant byte first.
pub open spec fn le16(n: nat) -> Seq<u8> {
    seq![(n % 256) as u8, (n / 256) as u8]
}

/// The length that two header bytes state, least significant byte first.
pub open spec fn le16_value(low: u8, high: u8) -> nat {
    low as nat + 256 * high as nat
}

/// A packet as it travels on the wire: its header, then its bytes.
pub open spec fn framed(packet: Seq<u8>) -> Seq<u8> {
    le16(packet.len()) + packet
}

/// The bytes to write for one packet: header and packet, or the reason the
/// packet may not be sent (it is then never sent in part).
pub fn frame_packet(packet: &[u8]) -> (r: Result<Vec<u8>, FramingError>)
    ensures
        match r {
            Ok(bytes) => valid_packet_len(packet@.len() as int) && bytes@ == framed(packet@),
            Err(e) => !valid_packet_len(packet@.len() as int) && e == length_error(
                packet@.len() as int,
            ),
        },
{
    let n = packet.len();
    if n == 0 {
        return Err(FramingError::EmptyPacket);
    }
    if n > MAX_PACKET_SIZE {
        return Err(FramingError::OversizedPacket);
    }
    let mut bytes: Vec<u8> = Vec::with_capacity(n + 2);
    bytes.push((n % 256) as u8);
    bytes.push((n / 256) as u8);
    let mut i: usize = 0;
    while i < n
        invariant
            n == packet@.len(),
            i <= n,
            bytes@ == le16(n as nat) + packet@.subrange(0, i as int),
        decreases n - i,
    {
        bytes.push(packet[i]);
        i += 1;
        assert(bytes@ =~= le16(n as nat) + packet@.subrange(0, i as int));
    }
    assert(packet@.subrange(0, n as int) =~= packet@);
    Ok(bytes)
}

/// The packet length that a header states, if a packet of that length may
/// travel on the wire.
pub fn parse_header(header: [u8; 2]) -> (r: Result<usize, FramingError>)
    ensures
        match r {
            Ok(n) => n == le16_value(header@[0], header@[1]) && valid_packet_len(n as int),
            Err(e) => !valid_packet_len(le16_value(header@[0], header@[1]) as int) && e
                == length_error(le16_value(header@[0], header@[1]) as int),
        },
{
    let n: usize = header[0] as usize + 256 * (header[1] as usize);
    if n == 0 {
        Err(FramingError::EmptyPacket)
    } else if n > MAX_PACKET_SIZE {
        Err(FramingError::OversizedPacket)
    } else {
        Ok(n)
    }
}

/// Framing loses nothing: the header of a framed packet states the packet's
/// length, and the bytes after the header are the packet itself.
pub proof fn lemma_framing_round_trip(packet: Seq<u8>)
    requires
        valid_packet_len(packet.len() as int),
    ensures
        framed(packet).len() == packet.len() + 2,
        le16_value(framed(packet)[0], framed(packet)[1]) == packet.len(),
        framed(packet).subrange(2, framed(packet).len() as int) == packet,
{
    let n = packet.len();
    assert(framed(packet).subrange(2, framed(packet).len() as int) =~= packet);
    assert((n % 256) as u8 as nat + 256 * ((n / 256) as u8 as nat) == n) by {
        assert(n / 256 < 256);
    }
}

/// What a listener's reader does after reading the bytes it asked for.
pub enum ReaderStep {
    /// A valid header was read; the packet body is read next.
    Continue,
    /// A whole packet was read.
    Packet(Vec<u8>),
    /// The header states a length that is not valid framing: the session ends.
    Invalid(FramingError),
}

/// The receive side of one connection: alternately reads a header and the
/// packet body that it announces.
pub struct PacketReader {
    body_len: Option<usize>,
}

impl View for PacketReader {
    type V = Option<usize>;

    /// `None` while a header is expected, `Some(n)` while a body of `n`
    /// bytes is.
    closed spec fn view(&self) -> Option<usize> {
        self.body_len
    }
}

/// The number of bytes a reader in state `state` reads next.
pub open spec fn wanted(state: Option<usize>) -> nat {
    match state {
        None => 2,
        Some(n) => n as nat,
    }
}

impl PacketReader {
    #[verifier::type_invariant]
    spec fn announced_len_is_valid(self) -> bool {
        self.body_len matches Some(n) ==> valid_packet_len(n as int)
    }

    /// A reader at the start of a stream, expecting a header.
    pub fn new() -> (r: Self)
        ensures
            r@ is None,
    {
        PacketReader { body_len: None }
    }

    /// How many bytes to read next: two for a header, else the announced
    /// packet length, which is valid framing.
    pub fn bytes_wanted(&self) -> (n: usize)
        ensures
            n == wanted(self@),
            self@ matches Some(len) ==> valid_packet_len(len as int),
    {
        proof {
            use_type_invariant(self);
        }
        match self.body_len {
            None => 2,
            Some(n) => n,
        }
    }

    /// Takes exactly the bytes asked for by `bytes_wanted` and says what
    /// they were.
    pub fn accept(&mut self, bytes: &[u8]) -> (step: ReaderStep)
        requires
            bytes@.len() == wanted(old(self)@),
        ensures
            match old(self)@ {
                None => {
                    let n = le16_value(bytes@[0], bytes@[1]) as int;
                    if valid_packet_len(n) {
                        step is Continue && final(self)@ == Some(n as usize)
                    } else {
                        step == ReaderStep::Invalid(length_error(n)) && final(self)@ is None
                    }
                },
                Some(_) => step matches ReaderStep::Packet(p) && p@ == bytes@ && final(self)@ is None,
            },
    {
        match self.body_len {
            None => {
                let header: [u8; 2] = [bytes[0], bytes[1]];
                match parse_header(header) {
                    Ok(n) => {
                        self.body_len = Some(n);
                        ReaderStep::Continue
                    },
                    Err(e) => ReaderStep::Invalid(e),
                }
            },
            Some(_) => {
                self.body_len = None;
                let mut packet: Vec<u8> = Vec::with_capacity(bytes.len());
                let mut i: usize = 0;
                while i < bytes.len()
                    invariant
                        i <= bytes@.len(),
                        packet@ == bytes@.subrange(0, i as int),
                    decreases bytes@.len() - i,
                {
                    packet.push(bytes[i]);
                    i += 1;
                    assert(packet@ =~= bytes@.subrange(0, i as int));
                }
                assert(packet@ =~= bytes@);
                ReaderStep::Packet(packet)
            },
        }
    }
}

/// What the broadcast bus handed to the writer of one listener.
pub enum BusEvent<'a> {
    /// The next encoded packet.
    Packet(&'a [u8]),
    /// The listener fell behind: `skipped` packets were overwritten before
    /// it read them, and `queued` older packets still wait for it.
    Lagged { skipped: u64, queued: usize },
    /// The sharer closed the bus.
    Closed,
}

/// What the writer of one listener does next.
pub enum WriterAction {
    /// Write these bytes, a framed packet, then wait for the next event.
    Write(Vec<u8>),
    /// The packet may not travel on the wire: drop it and go on.
    Discard(FramingError),
    /// Resume at the newest packet: log `skipped`, then discard the
    /// `discard` oldest queued packets, which are stale, unsent.
    Resume { skipped: u64, discard: usize },
    /// Stop writing and close the connection.
    Finish,
}

/// The slow-listener policy: packets are framed and written; after a lag
/// every queued packet but the newest is discarded, so no stale packet is
/// sent; a closed bus ends the writer.
pub fn writer_action(event: BusEvent) -> (a: WriterAction)
    ensures
        match event {
            BusEvent::Packet(p) => if valid_packet_len(p@.len() as int) {
                a matches WriterAction::Write(bytes) && bytes@ == framed(p@)
            } else {
                a == WriterAction::Discard(length_error(p@.len() as int))
            },
            BusEvent::Lagged { skipped, queued } => a == (WriterAction::Resume {
                skipped,
                discard: if queued == 0 {
                    0
                } else {
                    (queued - 1) as usize
                },
            }),
            BusEvent::Closed => a is Finish,
        },
{
    match event {
        BusEvent::Packet(p) => match frame_packet(p) {
            Ok(bytes) => WriterAction::Write(bytes),
            Err(e) => WriterAction::Discard(e),
        },
        BusEvent::Lagged { skipped, queued } => {
            let discard = if queued == 0 {
                0
            } else {
                queued - 1
            };
            WriterAction::Resume { skipped, discard }
        },
        BusEvent::Closed => WriterAction::Finish,
    }
}

} // verus!
