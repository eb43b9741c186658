//! The patch file: reading a patch from its bytes and writing it as bytes.
use crate::checksum::{crc32, Checksum};
use crate::error::{UpsParseError, UpsParseResult};
use crate::model::{
    covered, data_len, from_le_bytes, has_magic, joined, layout, le_bytes, lemma_run_end, magic,
    parse_blocks, serialize_blocks, serialize_head, serialize_with, BlockView, Layout,
};
use crate::patch::{block_views, Block, Patch};
use crate::text::{preamble_message, preamble_text};
use crate::varint;
use vstd::prelude::*;
use vstd::slice::{slice_subrange, slice_to_vec};

verus! {

/// The first bytes of `input`, four of them where it has as many.
pub open spec fn preamble(input: Seq<u8>) -> Seq<u8> {
    input.take(
        if input.len() < 4 {
            input.len() as int
        } else {
            4
        },
    )
}

/// What parsing `input` returns when the checksum of all but its last four
/// bytes is `actual`: for each way in which the layout is broken, an offset
/// that is cut short among them, a format mismatch that names it; for a file that states another checksum of itself
/// than `actual`, a checksum mismatch that holds the patch and both
/// checksums; else the patch.
pub open spec fn parse_outcome(input: Seq<u8>, actual: Checksum, r: UpsParseResult<Patch>) -> bool {
    match layout(input) {
        Layout::BadMagic => r matches Err(e) && e.says(preamble_text(magic(), preamble(input))),
        Layout::BadSourceSize => r matches Err(e) && e.says("error reading source file size"@),
        Layout::BadDestSize => r matches Err(e) && e.says("error reading dest file size"@),
        Layout::MissingChecksums => r matches Err(e) && e.says("failed to read checksums"@),
        Layout::BadOffset => r matches Err(e) && e.says("error reading block offset"@),
        Layout::Parsed { patch, patch_checksum } => if actual.0 == patch_checksum {
            r matches Ok(parsed) && parsed@ == patch
        } else {
            r matches Err(
                UpsParseError::PatchChecksumMismatch { parsed_patch, expected, actual: found },
            ) && parsed_patch@ == patch && expected.0 == patch_checksum && found == actual
        },
    }
}

/// Whether `input` starts with the magic bytes.
fn starts_with_magic(input: &[u8]) -> (r: bool)
    ensures
        r == has_magic(input@),
{
    let r = input.len() >= 4 && input[0] == 0x55 && input[1] == 0x50 && input[2] == 0x53
        && input[3] == 0x31;
    proof {
        if input@.len() >= 4 {
            let front = input@.take(4);
            assert(front[0] == input@[0] && front[1] == input@[1] && front[2] == input@[2]
                && front[3] == input@[3]);
            if r {
                assert(front == magic());
            }
        }
    }
    r
}

/// The error for a file that does not start with the magic bytes.
fn magic_error(input: &[u8]) -> (e: UpsParseError)
    ensures
        e.says(preamble_text(magic(), preamble(input@))),
{
    let expected: [u8; 4] = [0x55, 0x50, 0x53, 0x31];
    assert(expected@ == magic());
    let found = slice_subrange(
        input,
        0,
        if input.len() < 4 {
            input.len()
        } else {
            4
        },
    );
    UpsParseError::FormatMismatch(preamble_message(expected.as_slice(), found))
}

/// Reads a checksum, four bytes with the least significant first, from the
/// front of `buf` and moves `buf` past it. Where fewer than four bytes are
/// left, `buf` stays as it is.
pub fn read_checksum(buf: &mut &[u8]) -> (r: UpsParseResult<Checksum>)
    ensures
        match r {
            Ok(sum) => old(buf)@.len() >= 4 && sum.0 == from_le_bytes(old(buf)@) && final(buf)@
                == old(buf)@.skip(4),
            Err(e) => old(buf)@.len() < 4 && final(buf)@ == old(buf)@ && e.says(
                "Unexpected EOF while reading file"@,
            ),
        },
{
    let bytes: &[u8] = *buf;
    if bytes.len() < 4 {
        Err(UpsParseError::FormatMismatch(String::from_str("Unexpected EOF while reading file")))
    } else {
        let sum = Checksum::from_le_bytes(bytes);
        *buf = slice_subrange(bytes, 4, bytes.len());
        Ok(sum)
    }
}

impl Patch {
    /// Parses an UPS file of which the checksum over all but its last four
    /// bytes is already known to be `actual`.
    pub fn parse_with_checksum(input: &[u8], actual: Checksum) -> (r: UpsParseResult<Patch>)
        ensures
            parse_outcome(input@, actual, r),
    {
        if !starts_with_magic(input) {
            return Err(magic_error(input));
        }
        let mut rest: &[u8] = slice_subrange(input, 4, input.len());
        let ghost after_magic = rest@;
        assert(after_magic == input@.skip(4));
        let src_size = match varint::read_bytes(&mut rest) {
            Some(size) => size,
            None => {
                return Err(
                    UpsParseError::FormatMismatch(
                        String::from_str("error reading source file size"),
                    ),
                );
            },
        };
        let ghost after_src = rest@;
        proof {
            varint::lemma_decode_len(after_magic);
            let n = varint::decode(after_magic).unwrap().1;
            assert(after_src == input@.skip(4 + n as int));
        }
        let dst_size = match varint::read_bytes(&mut rest) {
            Some(size) => size,
            None => {
                return Err(
                    UpsParseError::FormatMismatch(String::from_str("error reading dest file size")),
                );
            },
        };
        proof {
            varint::lemma_decode_len(after_src);
            let n = varint::decode(after_magic).unwrap().1;
            let m = varint::decode(after_src).unwrap().1;
            assert(rest@ == input@.skip(4 + n as int + m as int));
        }
        if rest.len() < 12 {
            return Err(UpsParseError::FormatMismatch(String::from_str("failed to read checksums")));
        }
        let body: &[u8] = slice_subrange(rest, 0, rest.len() - 12);
        let mut sums: &[u8] = slice_subrange(rest, rest.len() - 12, rest.len());
        assert(body@ == rest@.take(rest@.len() - 12));
        assert(sums@ == rest@.skip(rest@.len() - 12));
        let ghost all_sums = sums@;

        let mut blocks: Vec<Block> = Vec::new();
        let mut left: &[u8] = body;
        assert(Seq::<BlockView>::empty() + parse_blocks(body@).unwrap() == parse_blocks(
            body@,
        ).unwrap());
        while left.len() > 0
            invariant
                parse_blocks(body@) == joined(block_views(blocks@), parse_blocks(left@)),
                parse_blocks(body@) is None ==> layout(input@) == Layout::BadOffset,
            decreases left@.len(),
        {
            let ghost start = left@;
            let offset = match varint::read_bytes(&mut left) {
                Some(offset) => offset,
                None => {
                    return Err(
                        UpsParseError::FormatMismatch(
                            String::from_str("error reading block offset"),
                        ),
                    );
                },
            };
            let whole: usize = left.len();
            let found = memchr::memchr(0, left);
            let len: usize = match found {
                Some(at) => at + 1,
                None => whole,
            };
            proof {
                varint::lemma_decode_len(start);
                match found {
                    Some(at) => lemma_run_end(left@, 0, at as int),
                    None => lemma_run_end(left@, 0, left@.len() as int),
                }
                assert(data_len(left@) == len);
            }
            let xor_data = slice_to_vec(slice_subrange(left, 0, len));
            let ghost data_from = left@;
            left = slice_subrange(left, len, left.len());
            let ghost before = blocks@;
            let block = Block { offset, xor_data };
            blocks.push(block);
            proof {
                assert(block@.xor_data == data_from.take(len as int));
                assert(left@ == data_from.skip(len as int));
                assert(block_views(blocks@) == block_views(before).push(block@));
                assert(parse_blocks(start) == joined(seq![block@], parse_blocks(left@)));
                if let Some(later) = parse_blocks(left@) {
                    assert(block_views(before).push(block@) + later == block_views(before) + (
                    seq![block@] + later));
                }
            }
        }
        assert(parse_blocks(body@) == Some(block_views(blocks@))) by {
            assert(block_views(blocks@) + Seq::<BlockView>::empty() == block_views(blocks@));
        }

        let src_checksum = match read_checksum(&mut sums) {
            Ok(sum) => sum,
            Err(e) => {
                return Err(e);
            },
        };
        let dst_checksum = match read_checksum(&mut sums) {
            Ok(sum) => sum,
            Err(e) => {
                return Err(e);
            },
        };
        let patch_checksum = match read_checksum(&mut sums) {
            Ok(sum) => sum,
            Err(e) => {
                return Err(e);
            },
        };
        assert(all_sums.skip(4).skip(4) == all_sums.skip(8));

        let parsed_patch = Patch { blocks, src_size, src_checksum, dst_size, dst_checksum };

        if actual != patch_checksum {
            Err(
                UpsParseError::PatchChecksumMismatch {
                    parsed_patch,
                    expected: patch_checksum,
                    actual,
                },
            )
        } else {
            Ok(parsed_patch)
        }
    }

    /// Parses an UPS file.
    pub fn parse(input: &[u8]) -> (r: UpsParseResult<Patch>)
        ensures
            parse_outcome(input@, Checksum(crc32(covered(input@))), r),
    {
        if !starts_with_magic(input) {
            return Err(magic_error(input));
        }
        // Calculate patch checksum before reading anything
        let actual_patch_checksum = Checksum::from_bytes(
            slice_subrange(input, 0, input.len() - 4),
        );
        Patch::parse_with_checksum(input, actual_patch_checksum)
    }
}

impl Patch {
    /// Everything of the patch file but its last four bytes: the magic bytes,
    /// the two sizes, the blocks, and the checksums of source and destination.
    pub fn serialize_head(&self) -> (bytes: Vec<u8>)
        ensures
            bytes@ == serialize_head(self@),
    {
        let mut bytes: Vec<u8> = Vec::new();
        bytes.push(0x55);
        bytes.push(0x50);
        bytes.push(0x53);
        bytes.push(0x31);
        assert(bytes@ == magic());
        varint::write_bytes(&mut bytes, self.src_size);
        varint::write_bytes(&mut bytes, self.dst_size);
        let ghost front = bytes@;
        let ghost views = block_views(self.blocks@);
        let mut k: usize = 0;
        assert(views.skip(0) == views);
        while k < self.blocks.len()
            invariant
                k <= self.blocks@.len(),
                views == block_views(self.blocks@),
                bytes@ + serialize_blocks(views.skip(k as int)) == front
                    + serialize_blocks(views),
            decreases self.blocks@.len() - k,
        {
            let block = &self.blocks[k];
            let ghost before = bytes@;
            varint::write_bytes(&mut bytes, block.offset);
            bytes.extend_from_slice(block.xor_data.as_slice());
            proof {
                assert(views.skip(k as int)[0] == block@);
                assert(views.skip(k as int).skip(1) == views.skip(k + 1));
                assert(bytes@ == before + varint::encode(block.offset as nat) + block.xor_data@);
                assert(bytes@ + serialize_blocks(views.skip(k + 1)) == before + (
                varint::encode(block.offset as nat) + block.xor_data@
                    + serialize_blocks(views.skip(k + 1))));
            }
            k += 1;
        }
        assert(bytes@ == front + serialize_blocks(views)) by {
            assert(serialize_blocks(views.skip(k as int)) == Seq::<u8>::empty());
        }
        let src_sum = self.src_checksum.to_le_bytes();
        bytes.extend_from_slice(src_sum.as_slice());
        assert(bytes@ == front + serialize_blocks(views) + le_bytes(
            self.src_checksum.0,
        ));
        let dst_sum = self.dst_checksum.to_le_bytes();
        bytes.extend_from_slice(dst_sum.as_slice());
        assert(bytes@ == front + serialize_blocks(views) + le_bytes(
            self.src_checksum.0,
        ) + le_bytes(self.dst_checksum.0));
        bytes
    }

    /// Serialize this patch as an UPS file.
    pub fn serialize(&self) -> (bytes: Vec<u8>)
        ensures
            bytes@ == serialize_with(
                self@,
                crc32(serialize_head(self@)),
            ),
    {
        let mut bytes = self.serialize_head();
        let patch_checksum = Checksum::from_bytes(bytes.as_slice());
        let sum = patch_checksum.to_le_bytes();
        bytes.extend_from_slice(sum.as_slice());
        assert(bytes@ == serialize_head(self@) + le_bytes(
            patch_checksum.0,
        ));
        bytes
    }
}

} // verus!
