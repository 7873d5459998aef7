//! The fixed framing header at the start of every datagram.

use vstd::prelude::*;

verus! {

/// Number of bytes that the framing header occupies at the start of a datagram.
pub const HEADER_LEN: usize = 9;

/// The framing header of one datagram.
#[derive(Clone, Copy, Debug, PartialEq, Eq, Structural)]
pub struct UDPFrameHeader {
    /// Counter over all datagrams of the stream; wraps at 65535.
    pub packet_number: u16,
    /// Identifier shared by all fragments of one frame; wraps at 255.
    pub frame_number: u8,
    /// Zero-based index of this fragment within its frame.
    pub sub_packet_number: u8,
    /// Number of fragments that make up the frame.
    pub total_sub_packets: u8,
    /// Length of the whole datagram, header included, as the sender declares it.
    pub packet_length: u32,
}

/// The value of two bytes read as a big-endian number.
pub open spec fn be16(b0: u8, b1: u8) -> int {
    b0 as int * 256 + b1 as int
}

/// The value of four bytes read as a big-endian number.
pub open spec fn be32(b0: u8, b1: u8, b2: u8, b3: u8) -> int {
    b0 as int * 16777216 + b1 as int * 65536 + b2 as int * 256 + b3 as int
}

/// The header that the first nine bytes of `bytes` spell out.
pub open spec fn header_of(bytes: Seq<u8>) -> UDPFrameHeader
    recommends
        bytes.len() >= HEADER_LEN,
{
    UDPFrameHeader {
        packet_number: be16(bytes[0], bytes[1]) as u16,
        frame_number: bytes[2],
        sub_packet_number: bytes[3],
        total_sub_packets: bytes[4],
        packet_length: be32(bytes[5], bytes[6], bytes[7], bytes[8]) as u32,
    }
}

/// The part of a datagram that follows the header.
pub open spec fn payload_of(bytes: Seq<u8>) -> Seq<u8>
    recommends
        bytes.len() >= HEADER_LEN,
{
    bytes.subrange(HEADER_LEN as int, bytes.len() as int)
}

impl UDPFrameHeader {
    /// Reads the header from the start of a datagram. Only the fields are
    /// extracted; nothing about their values is checked.
    pub fn from(bytes: &[u8]) -> (header: UDPFrameHeader)
        requires
            bytes@.len() >= HEADER_LEN,
        ensures
            header == header_of(bytes@),
            header.packet_number as int == be16(bytes@[0], bytes@[1]),
            header.packet_length as int == be32(bytes@[5], bytes@[6], bytes@[7], bytes@[8]),
    {
        let hi: u16 = bytes[0] as u16;
        let lo: u16 = bytes[1] as u16;
        let l0: u32 = bytes[5] as u32;
        let l1: u32 = bytes[6] as u32;
        let l2: u32 = bytes[7] as u32;
        let l3: u32 = bytes[8] as u32;
        UDPFrameHeader {
            packet_number: hi * 256 + lo,
            frame_number: bytes[2],
            sub_packet_number: bytes[3],
            total_sub_packets: bytes[4],
            packet_length: l0 * 16777216 + l1 * 65536 + l2 * 256 + l3,
        }
    }

    /// Whether a datagram of `received` bytes has the length that the header
    /// declares. A mismatch is worth a diagnostic and nothing more: the
    /// fragment is processed all the same.
    pub fn length_matches(&self, received: usize) -> (matches: bool)
        ensures
            matches <==> received as int == self.packet_length as int,
    {
        received as u64 == self.packet_length as u64
    }
}

} // verus!
