//! CRC-32 checksums.
use crate::model::{from_le_bytes, le_bytes};
use crate::text::{hex_byte, push_hex_byte};
use vstd::prelude::*;

verus! {

/// The CRC-32 (IEEE) of `data`.
pub uninterp spec fn crc32(data: Seq<u8>) -> u32;

/// `crc32fast::hash` computes the CRC-32 (IEEE) of the whole slice in one
/// pass. The result depends on the bytes alone.
pub assume_specification[ crc32fast::hash ](buf: &[u8]) -> (sum: u32)
    ensures
        sum == crc32(buf@),
;

/// A CRC-32 checksum.
#[derive(Clone, Copy, PartialEq, Eq, Structural, Hash, Debug)]
pub struct Checksum(pub u32);

/// A checksum as text: `0x`, then the two hexadecimal digits of each of its
/// four bytes, the least significant byte first.
pub open spec fn hex_text(sum: u32, upper: bool) -> Seq<char> {
    let bytes = le_bytes(sum);
    seq!['0', 'x'] + hex_byte(bytes[0], upper) + hex_byte(bytes[1], upper) + hex_byte(
        bytes[2],
        upper,
    ) + hex_byte(bytes[3], upper)
}

impl Checksum {
    /// The four bytes of the checksum, least significant first.
    pub fn to_le_bytes(&self) -> (bytes: [u8; 4])
        ensures
            bytes@ == le_bytes(self.0),
    {
        let x: u32 = self.0;
        assert(x & 0xff < 0x100 && (x >> 8) & 0xff < 0x100 && (x >> 16) & 0xff < 0x100 && (x >> 24)
            & 0xff < 0x100) by (bit_vector);
        let bytes: [u8; 4] = [
            (x & 0xff) as u8,
            ((x >> 8) & 0xff) as u8,
            ((x >> 16) & 0xff) as u8,
            ((x >> 24) & 0xff) as u8,
        ];
        assert(bytes@ =~= le_bytes(self.0));
        bytes
    }

    /// The checksum that the first four bytes of `bytes` hold, least
    /// significant first.
    pub fn from_le_bytes(bytes: &[u8]) -> (sum: Checksum)
        requires
            bytes@.len() >= 4,
        ensures
            sum.0 == from_le_bytes(bytes@),
    {
        Checksum(
            (bytes[0] as u32) | ((bytes[1] as u32) << 8) | ((bytes[2] as u32) << 16) | ((
            bytes[3] as u32) << 24),
        )
    }

    /// The checksum in hexadecimal with small letters.
    pub fn to_lower_hex(&self) -> (text: String)
        ensures
            text@ == hex_text(self.0, false),
    {
        self.to_hex(false)
    }

    /// The checksum in hexadecimal with capital letters.
    pub fn to_upper_hex(&self) -> (text: String)
        ensures
            text@ == hex_text(self.0, true),
    {
        self.to_hex(true)
    }

    /// The checksum as it is shown to a reader: in hexadecimal with capital
    /// letters.
    pub fn to_string(&self) -> (text: String)
        ensures
            text@ == hex_text(self.0, true),
    {
        self.to_hex(true)
    }

    fn to_hex(&self, upper: bool) -> (text: String)
        ensures
            text@ == hex_text(self.0, upper),
    {
        let bytes = self.to_le_bytes();
        let mut text = String::new();
        text.push('0');
        text.push('x');
        let mut i: usize = 0;
        while i < 4
            invariant
                i <= 4,
                bytes@ == le_bytes(self.0),
                i == 0 ==> text@ == seq!['0', 'x'],
                i == 1 ==> text@ == seq!['0', 'x'] + hex_byte(bytes@[0], upper),
                i == 2 ==> text@ == seq!['0', 'x'] + hex_byte(bytes@[0], upper) + hex_byte(
                    bytes@[1],
                    upper,
                ),
                i == 3 ==> text@ == seq!['0', 'x'] + hex_byte(bytes@[0], upper) + hex_byte(
                    bytes@[1],
                    upper,
                ) + hex_byte(bytes@[2], upper),
                i == 4 ==> text@ == hex_text(self.0, upper),
            decreases 4 - i,
        {
            push_hex_byte(&mut text, bytes[i], upper);
            i += 1;
        }
        text
    }

    /// Calculate `data` checksum.
    pub fn from_bytes(data: &[u8]) -> (sum: Checksum)
        ensures
            sum.0 == crc32(data@),
    {
        Checksum(crc32fast::hash(data))
    }
}

} // verus!
