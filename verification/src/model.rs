//! The mathematical model of a patch: what a stream of bytes parses to, what a
//! patch serializes to, what it does to a buffer, and which blocks tell two
//! buffers apart.
use crate::util::shared_len;
use crate::varint::{decode, encode};
use vstd::prelude::*;

verus! {

/// One diff block: the distance from the end of the block before it, and the
/// XOR of the two files over the block, a zero byte at its end.
pub struct BlockView {
    pub offset: nat,
    pub xor_data: Seq<u8>,
}

/// A patch as plain values.
pub struct PatchView {
    pub blocks: Seq<BlockView>,
    pub src_size: nat,
    pub src_checksum: u32,
    pub dst_size: nat,
    pub dst_checksum: u32,
}

/// The four bytes that every patch file starts with: `UPS1`.
pub open spec fn magic() -> Seq<u8> {
    seq![0x55u8, 0x50u8, 0x53u8, 0x31u8]
}

/// The first position at or after `from` that holds a zero byte, or the
/// length of `x` where there is none.
pub open spec fn run_end(x: Seq<u8>, from: int) -> int
    decreases x.len() - from,
{
    if from < 0 || from >= x.len() || x[from] == 0 {
        from
    } else {
        run_end(x, from + 1)
    }
}

/// A block is well formed when its data is a run of non-zero bytes closed by
/// one zero byte.
pub open spec fn block_wf(b: BlockView) -> bool {
    &&& b.xor_data.len() >= 1
    &&& b.xor_data.last() == 0
    &&& forall|i: int| 0 <= i < b.xor_data.len() - 1 ==> b.xor_data[i] != 0
}

/// Every block of the list is well formed.
pub open spec fn blocks_wf(blocks: Seq<BlockView>) -> bool {
    forall|i: int| 0 <= i < blocks.len() ==> block_wf(#[trigger] blocks[i])
}

// ---------------------------------------------------------------------
// Little-endian words
// ---------------------------------------------------------------------
/// The four bytes of `x`, least significant first.
pub open spec fn le_bytes(x: u32) -> Seq<u8> {
    seq![
        (x & 0xff) as u8,
        ((x >> 8) & 0xff) as u8,
        ((x >> 16) & 0xff) as u8,
        ((x >> 24) & 0xff) as u8,
    ]
}

/// The word whose four bytes, least significant first, open `s`.
pub open spec fn from_le_bytes(s: Seq<u8>) -> u32
    recommends
        s.len() >= 4,
{
    (s[0] as u32) | ((s[1] as u32) << 8) | ((s[2] as u32) << 16) | ((s[3] as u32) << 24)
}

/// Reading back the four bytes of a word gives the word.
pub proof fn lemma_le_bytes_roundtrip(x: u32)
    ensures
        le_bytes(x).len() == 4,
        from_le_bytes(le_bytes(x)) == x,
{
    let b0 = (x & 0xff) as u8;
    let b1 = ((x >> 8) & 0xff) as u8;
    let b2 = ((x >> 16) & 0xff) as u8;
    let b3 = ((x >> 24) & 0xff) as u8;
    assert((b0 as u32) | ((b1 as u32) << 8) | ((b2 as u32) << 16) | ((b3 as u32) << 24) == x)
        by (bit_vector)
        requires
            b0 == (x & 0xff) as u8,
            b1 == ((x >> 8) & 0xff) as u8,
            b2 == ((x >> 16) & 0xff) as u8,
            b3 == ((x >> 24) & 0xff) as u8,
    ;
}

// ---------------------------------------------------------------------
// Serializing
// ---------------------------------------------------------------------
/// The bytes of the blocks, one after the other: each offset as a varint, then
/// the block's data.
pub open spec fn serialize_blocks(blocks: Seq<BlockView>) -> Seq<u8>
    decreases blocks.len(),
{
    if blocks.len() == 0 {
        Seq::empty()
    } else {
        encode(blocks[0].offset) + blocks[0].xor_data + serialize_blocks(blocks.skip(1))
    }
}

/// Everything of a patch file but its last four bytes.
pub open spec fn serialize_head(p: PatchView) -> Seq<u8> {
    magic() + encode(p.src_size) + encode(p.dst_size) + serialize_blocks(p.blocks) + le_bytes(
        p.src_checksum,
    ) + le_bytes(p.dst_checksum)
}

/// A patch file whose last four bytes hold `patch_checksum`.
pub open spec fn serialize_with(p: PatchView, patch_checksum: u32) -> Seq<u8> {
    serialize_head(p) + le_bytes(patch_checksum)
}

// ---------------------------------------------------------------------
// Parsing
// ---------------------------------------------------------------------
/// A varint that fits the machine word, with its length.
pub open spec fn decode_word(bytes: Seq<u8>) -> Option<(nat, nat)> {
    match decode(bytes) {
        Some((v, n)) => if v <= usize::MAX {
            Some((v, n))
        } else {
            None
        },
        None => None,
    }
}

/// The number of bytes that the block data at the front of `body` takes:
/// up to and with the first zero byte, or all of `body` where it has none.
pub open spec fn data_len(body: Seq<u8>) -> int {
    let end = run_end(body, 0);
    if end < body.len() {
        end + 1
    } else {
        body.len() as int
    }
}

/// The blocks that a block stream holds: offset and data, one block after the
/// other, until the stream ends. `None` where bytes are left of which no
/// offset can be read: the stream ends inside the offset, or the offset is
/// more than a machine word holds.
pub open spec fn parse_blocks(body: Seq<u8>) -> Option<Seq<BlockView>>
    decreases body.len(),
{
    if body.len() == 0 {
        Some(Seq::empty())
    } else {
        match decode_word(body) {
            Some((offset, n)) => {
                if 1 <= n <= body.len() {
                    let rest = body.skip(n as int);
                    let len = data_len(rest);
                    if 0 <= len <= rest.len() {
                        match parse_blocks(rest.skip(len)) {
                            Some(later) => Some(
                                seq![BlockView { offset, xor_data: rest.take(len) }] + later,
                            ),
                            None => None,
                        }
                    } else {
                        None
                    }
                } else {
                    None
                }
            },
            None => None,
        }
    }
}

/// The blocks `front` with the blocks of `rest` behind them, where `rest`
/// holds any.
pub open spec fn joined(front: Seq<BlockView>, rest: Option<Seq<BlockView>>) -> Option<
    Seq<BlockView>,
> {
    match rest {
        Some(later) => Some(front + later),
        None => None,
    }
}

/// What the bytes of a patch file hold.
pub enum Layout {
    /// The file does not start with the magic bytes.
    BadMagic,
    /// No source size can be read behind the magic bytes.
    BadSourceSize,
    /// No destination size can be read behind the source size.
    BadDestSize,
    /// Fewer than twelve bytes are left for the three checksums.
    MissingChecksums,
    /// The block stream holds bytes of which no offset can be read.
    BadOffset,
    /// A patch, and the checksum that the file states of itself.
    Parsed { patch: PatchView, patch_checksum: u32 },
}

/// Whether `input` starts with the magic bytes.
pub open spec fn has_magic(input: Seq<u8>) -> bool {
    input.len() >= 4 && input.take(4) == magic()
}

/// Reads a patch file: the magic bytes, the two sizes, the blocks up to the
/// last twelve bytes, and in those the three checksums. The first part that
/// cannot be read decides which way the layout is broken; the checksums are
/// looked for before the blocks.
pub open spec fn layout(input: Seq<u8>) -> Layout {
    if !has_magic(input) {
        Layout::BadMagic
    } else {
        match decode_word(input.skip(4)) {
            None => Layout::BadSourceSize,
            Some((src_size, n)) => match decode_word(input.skip(4 + n as int)) {
                None => Layout::BadDestSize,
                Some((dst_size, m)) => {
                    let rest = input.skip(4 + n as int + m as int);
                    if rest.len() < 12 {
                        Layout::MissingChecksums
                    } else {
                        let body = rest.take(rest.len() - 12);
                        let sums = rest.skip(rest.len() - 12);
                        match parse_blocks(body) {
                            None => Layout::BadOffset,
                            Some(blocks) => Layout::Parsed {
                                patch: PatchView {
                                    blocks,
                                    src_size,
                                    src_checksum: from_le_bytes(sums),
                                    dst_size,
                                    dst_checksum: from_le_bytes(sums.skip(4)),
                                },
                                patch_checksum: from_le_bytes(sums.skip(8)),
                            },
                        }
                    }
                },
            },
        }
    }
}

/// The part of a patch file that its own checksum covers: all but the last
/// four bytes.
pub open spec fn covered(input: Seq<u8>) -> Seq<u8> {
    input.take(input.len() - 4)
}

// ---------------------------------------------------------------------
// Telling two buffers apart
// ---------------------------------------------------------------------
/// The byte of `s` at `i`, or zero where `s` has no such position.
pub open spec fn byte_at(s: Seq<u8>, i: int) -> u8 {
    if 0 <= i < s.len() {
        s[i]
    } else {
        0
    }
}

/// The XOR of two buffers, position by position, as long as the longer of the
/// two. Where only one of them has a byte, the byte stands as it is.
pub open spec fn xor_stream(a: Seq<u8>, b: Seq<u8>) -> Seq<u8> {
    Seq::new(
        if a.len() < b.len() {
            b.len()
        } else {
            a.len()
        },
        |i: int| byte_at(a, i) ^ byte_at(b, i),
    )
}

/// Where the next block starts: at the first position at or after `from`
/// that holds a non-zero byte or lies at or behind `shared`.
pub open spec fn block_start(x: Seq<u8>, shared: int, from: int) -> int
    decreases shared - from,
{
    if from >= shared || from < 0 || from >= x.len() || x[from] != 0 {
        from
    } else {
        block_start(x, shared, from + 1)
    }
}

/// The blocks that cover `x` from `cursor` on. Among the first `shared`
/// positions, zero bytes between two blocks are stepped over by the offset of
/// the second. Behind them every byte belongs to a block: each block runs up
/// to the next zero byte, which becomes its last byte, and the next block
/// follows at once.
pub open spec fn blocks_from(x: Seq<u8>, shared: int, cursor: int) -> Seq<BlockView>
    decreases x.len() + 1 - cursor,
{
    let start = block_start(x, shared, cursor);
    if cursor < 0 || start < cursor || start >= x.len() {
        Seq::empty()
    } else {
        let end = run_end(x, start);
        if end < start || end > x.len() {
            Seq::empty()
        } else {
            seq![
                BlockView {
                    offset: (start - cursor) as nat,
                    xor_data: x.subrange(start, end).push(0),
                },
            ] + blocks_from(x, shared, end + 1)
        }
    }
}

/// The blocks of the patch that turns `src` into `dst`.
pub open spec fn differing_blocks(src: Seq<u8>, dst: Seq<u8>) -> Seq<BlockView> {
    blocks_from(xor_stream(src, dst), shared_len(src, dst), 0)
}

/// `block_start` is `start` when every byte from `from` up to `start` is zero
/// and lies among the shared positions, and `start` itself stops the search.
pub proof fn lemma_block_start(x: Seq<u8>, shared: int, from: int, start: int)
    requires
        0 <= from <= start,
        start <= shared,
        shared <= x.len(),
        forall|i: int| from <= i < start ==> x[i] == 0,
        start == shared || x[start] != 0,
    ensures
        block_start(x, shared, from) == start,
    decreases start - from,
{
    if from < start {
        lemma_block_start(x, shared, from + 1, start);
    }
}

/// `run_end` is `end` when no byte from `from` up to `end` is zero and `end`
/// holds a zero byte or is where `x` ends.
pub proof fn lemma_run_end(x: Seq<u8>, from: int, end: int)
    requires
        0 <= from <= end <= x.len(),
        forall|i: int| from <= i < end ==> x[i] != 0,
        end == x.len() || x[end] == 0,
    ensures
        run_end(x, from) == end,
    decreases end - from,
{
    if from < end {
        lemma_run_end(x, from + 1, end);
    }
}

/// One step of `blocks_from`: behind the blocks `front`, the block that
/// starts at `start` and runs up to `end`, and then the blocks from behind
/// its closing zero byte on, are `front` and the blocks from `cursor` on.
/// No block follows one that runs up to the end of `x`.
pub proof fn lemma_blocks_from_step(
    x: Seq<u8>,
    shared: int,
    cursor: int,
    start: int,
    end: int,
    front: Seq<BlockView>,
)
    requires
        0 <= cursor <= start <= end <= x.len(),
        start < x.len(),
        block_start(x, shared, cursor) == start,
        run_end(x, start) == end,
    ensures
        ({
            let block = BlockView {
                offset: (start - cursor) as nat,
                xor_data: x.subrange(start, end).push(0),
            };
            &&& front.push(block) + blocks_from(x, shared, end + 1) == front + blocks_from(
                x,
                shared,
                cursor,
            )
            &&& end == x.len() ==> front.push(block) == front + blocks_from(x, shared, cursor)
        }),
{
    let block = BlockView {
        offset: (start - cursor) as nat,
        xor_data: x.subrange(start, end).push(0),
    };
    let later = blocks_from(x, shared, end + 1);
    assert(blocks_from(x, shared, cursor) == seq![block] + later);
    assert(front.push(block) + later == front + (seq![block] + later));
    if end == x.len() {
        assert(later == Seq::<BlockView>::empty());
        assert(front.push(block) + later == front.push(block));
    }
}

/// What `run_end` finds: no zero byte before it, and a zero byte at it unless
/// it is where `x` ends.
pub proof fn lemma_run_end_is_first_zero(x: Seq<u8>, from: int)
    requires
        0 <= from <= x.len(),
    ensures
        from <= run_end(x, from) <= x.len(),
        forall|i: int| from <= i < run_end(x, from) ==> x[i] != 0,
        run_end(x, from) == x.len() || x[run_end(x, from)] == 0,
    decreases x.len() - from,
{
    if from < x.len() && x[from] != 0 {
        lemma_run_end_is_first_zero(x, from + 1);
    }
}

/// The longer of two buffers; the first where they are equally long.
pub open spec fn longer_of(a: Seq<u8>, b: Seq<u8>) -> Seq<u8> {
    if a.len() < b.len() {
        b
    } else {
        a
    }
}

/// The XOR stream is zero exactly where two shared bytes agree, and behind
/// the shared positions it is the longer buffer itself.
pub proof fn lemma_xor_stream(a: Seq<u8>, b: Seq<u8>)
    ensures
        xor_stream(a, b).len() == longer_of(a, b).len(),
        shared_len(a, b) <= xor_stream(a, b).len(),
        forall|i: int|
            0 <= i < shared_len(a, b) ==> #[trigger] xor_stream(a, b)[i] == a[i] ^ b[i],
        forall|i: int|
            0 <= i < shared_len(a, b) ==> (#[trigger] xor_stream(a, b)[i] == 0 <==> a[i] == b[i]),
        forall|i: int|
            shared_len(a, b) <= i < xor_stream(a, b).len() ==> #[trigger] xor_stream(a, b)[i]
                == longer_of(a, b)[i],
{
    let x = xor_stream(a, b);
    assert forall|i: int| 0 <= i < shared_len(a, b) implies (#[trigger] x[i] == 0 <==> a[i]
        == b[i]) by {
        let p = a[i];
        let q = b[i];
        assert((p ^ q == 0) <==> p == q) by (bit_vector);
    }
    assert forall|i: int| shared_len(a, b) <= i < x.len() implies #[trigger] x[i] == longer_of(
        a,
        b,
    )[i] by {
        let p = longer_of(a, b)[i];
        assert(p ^ 0 == p && 0 ^ p == p) by (bit_vector);
    }
}

// ---------------------------------------------------------------------
// Applying blocks
// ---------------------------------------------------------------------
/// `out` with the bytes of `data` XORed onto it from position `at` on. What
/// of `data` reaches past the end of `out` is left out.
pub open spec fn xor_onto(out: Seq<u8>, at: int, data: Seq<u8>) -> Seq<u8> {
    Seq::new(
        out.len(),
        |i: int|
            if at <= i < at + data.len() {
                out[i] ^ data[i - at]
            } else {
                out[i]
            },
    )
}

/// `out` after the blocks have been laid over it, the first one starting its
/// offset behind `cursor`. A block whose offset reaches the end of `out` ends
/// the walk, and so does one whose data reaches it.
pub open spec fn apply_blocks(out: Seq<u8>, cursor: int, blocks: Seq<BlockView>) -> Seq<u8>
    decreases blocks.len(),
{
    if blocks.len() == 0 {
        out
    } else {
        let block = blocks[0];
        if block.offset >= out.len() - cursor {
            out
        } else {
            let at = cursor + block.offset;
            let next = xor_onto(out, at, block.xor_data);
            if block.xor_data.len() >= out.len() - at {
                next
            } else {
                apply_blocks(next, at + block.xor_data.len(), blocks.skip(1))
            }
        }
    }
}

/// The buffer that the blocks are laid over: `output_size` bytes, the first
/// ones copied from `input` as far as both sizes and `input` itself reach,
/// the others zero.
pub open spec fn seed(input: Seq<u8>, input_size: nat, output_size: nat) -> Seq<u8> {
    Seq::new(
        output_size,
        |i: int|
            if i < input_size && i < input.len() {
                input[i]
            } else {
                0u8
            },
    )
}

/// What a patch with these blocks makes of `input`.
pub open spec fn patched(
    blocks: Seq<BlockView>,
    input: Seq<u8>,
    input_size: nat,
    output_size: nat,
) -> Seq<u8> {
    apply_blocks(seed(input, input_size, output_size), 0, blocks)
}

} // verus!
