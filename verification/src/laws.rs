//! Laws that hold of the library as a whole.
use crate::checksum::{crc32, Checksum};
use crate::error::{UpsParseError, UpsParseResult, UpsPatchResult};
use crate::model::{
    apply_blocks, block_start, block_wf, blocks_from, blocks_wf, byte_at, covered, data_len,
    differing_blocks, from_le_bytes, has_magic, layout, le_bytes, lemma_le_bytes_roundtrip,
    lemma_run_end, lemma_run_end_is_first_zero, lemma_xor_stream, magic, parse_blocks, patched,
    run_end, seed, serialize_blocks, serialize_head, serialize_with, xor_onto, xor_stream,
    BlockView, Layout, PatchView,
};
use crate::codec::parse_outcome;
use crate::patch::{Patch, PatchDirection};
use crate::util::shared_len;
use crate::varint::{decode, encode, lemma_decode_encode, lemma_encode_shape, reads};
use vstd::prelude::*;

verus! {

// ---------------------------------------------------------------------
// Varints
// ---------------------------------------------------------------------
/// Reading what was written for `v` gives `v` back and leaves what follows
/// it.
pub proof fn lemma_read_written(v: usize, rest: Seq<u8>, r: Option<usize>, left: Seq<u8>)
    requires
        reads(encode(v as nat) + rest, r, left),
    ensures
        r == Some(v),
        left == rest,
{
    lemma_decode_encode(v as nat, rest);
    assert((encode(v as nat) + rest).skip(encode(v as nat).len() as int) == rest);
}

/// A varint that stands for more than a machine word holds is not read: no
/// value comes back in place of the one that does not fit.
pub proof fn lemma_read_overflow(input: Seq<u8>, r: Option<usize>, left: Seq<u8>)
    requires
        decode(input) matches Some((value, _)) && value > usize::MAX,
        reads(input, r, left),
    ensures
        r is None,
        left == input,
{
}

// ---------------------------------------------------------------------
// Files
// ---------------------------------------------------------------------
/// The blocks of a well-formed list are read back from their bytes.
pub proof fn lemma_parse_blocks_serialize(blocks: Seq<BlockView>)
    requires
        blocks_wf(blocks),
        forall|i: int| 0 <= i < blocks.len() ==> (#[trigger] blocks[i]).offset <= usize::MAX,
    ensures
        parse_blocks(serialize_blocks(blocks)) == Some(blocks),
    decreases blocks.len(),
{
    if blocks.len() > 0 {
        let block = blocks[0];
        let later = blocks.skip(1);
        let tail = serialize_blocks(later);
        let body = serialize_blocks(blocks);
        assert(block_wf(block));
        assert forall|i: int| 0 <= i < later.len() implies block_wf(#[trigger] later[i])
            && later[i].offset <= usize::MAX by {
            assert(later[i] == blocks[i + 1]);
        }
        lemma_parse_blocks_serialize(later);
        lemma_encode_shape(block.offset);
        lemma_decode_encode(block.offset, block.xor_data + tail);
        assert(body == encode(block.offset) + (block.xor_data + tail));
        let n = encode(block.offset).len();
        let rest = body.skip(n as int);
        assert(rest == block.xor_data + tail);
        let last = block.xor_data.len() - 1;
        assert forall|i: int| 0 <= i < last implies rest[i] != 0 by {
            assert(rest[i] == block.xor_data[i]);
        }
        assert(rest[last] == block.xor_data[last]);
        lemma_run_end(rest, 0, last);
        assert(data_len(rest) == block.xor_data.len());
        assert(rest.take(block.xor_data.len() as int) == block.xor_data);
        assert(rest.skip(block.xor_data.len() as int) == tail);
        assert(seq![block] + later == blocks);
    }
}

/// The three checksums at the end of a file are read back from their bytes.
pub proof fn lemma_read_sums(a: u32, b: u32, c: u32)
    ensures
        (le_bytes(a) + le_bytes(b) + le_bytes(c)).len() == 12,
        from_le_bytes(le_bytes(a) + le_bytes(b) + le_bytes(c)) == a,
        from_le_bytes((le_bytes(a) + le_bytes(b) + le_bytes(c)).skip(4)) == b,
        from_le_bytes((le_bytes(a) + le_bytes(b) + le_bytes(c)).skip(8)) == c,
{
    let sums = le_bytes(a) + le_bytes(b) + le_bytes(c);
    lemma_le_bytes_roundtrip(a);
    lemma_le_bytes_roundtrip(b);
    lemma_le_bytes_roundtrip(c);
    assert(from_le_bytes(sums) == a) by {
        let word = le_bytes(a);
        assert(sums[0] == word[0] && sums[1] == word[1] && sums[2] == word[2] && sums[3]
            == word[3]);
    }
    assert(from_le_bytes(sums.skip(4)) == b) by {
        let word = le_bytes(b);
        let at = sums.skip(4);
        assert(at[0] == word[0] && at[1] == word[1] && at[2] == word[2] && at[3] == word[3]);
    }
    assert(from_le_bytes(sums.skip(8)) == c) by {
        let word = le_bytes(c);
        let at = sums.skip(8);
        assert(at[0] == word[0] && at[1] == word[1] && at[2] == word[2] && at[3] == word[3]);
    }
}

/// A file is its magic bytes, its two sizes, its blocks and its twelve bytes
/// of checksums, in this order and with nothing between them.
pub proof fn lemma_file_parts(v: PatchView, stated: u32)
    ensures
        ({
            let bytes = serialize_with(v, stated);
            let sums = le_bytes(v.src_checksum) + le_bytes(v.dst_checksum) + le_bytes(stated);
            let body = serialize_blocks(v.blocks);
            let n = encode(v.src_size).len() as int;
            let m = encode(v.dst_size).len() as int;
            &&& has_magic(bytes)
            &&& bytes.skip(4) == encode(v.src_size) + (encode(v.dst_size) + (body + sums))
            &&& bytes.skip(4 + n) == encode(v.dst_size) + (body + sums)
            &&& bytes.skip(4 + n + m) == body + sums
            &&& sums.len() == 12
            &&& (body + sums).take((body + sums).len() - 12) == body
            &&& (body + sums).skip((body + sums).len() - 12) == sums
            &&& covered(bytes) == serialize_head(v)
        }),
{
    let bytes = serialize_with(v, stated);
    let sums = le_bytes(v.src_checksum) + le_bytes(v.dst_checksum) + le_bytes(stated);
    let body = serialize_blocks(v.blocks);
    let n = encode(v.src_size).len() as int;
    let m = encode(v.dst_size).len() as int;
    lemma_read_sums(v.src_checksum, v.dst_checksum, stated);
    assert(bytes =~= magic() + (encode(v.src_size) + (encode(v.dst_size) + (body + sums))));
    assert(bytes.take(4) =~= magic());
    assert(bytes.skip(4) =~= encode(v.src_size) + (encode(v.dst_size) + (body + sums)));
    assert(bytes.skip(4 + n) =~= encode(v.dst_size) + (body + sums));
    assert(bytes.skip(4 + n + m) =~= body + sums);
    assert((body + sums).take((body + sums).len() - 12) =~= body);
    assert((body + sums).skip((body + sums).len() - 12) =~= sums);
    assert(covered(bytes) =~= serialize_head(v));
}

/// What a patch file with well-formed blocks holds: the patch, and the
/// checksum in its last four bytes. All but those four bytes is what the
/// checksum is taken over.
pub proof fn lemma_layout_of_file(p: Patch, stated: u32)
    requires
        p.wf(),
    ensures
        layout(serialize_with(p@, stated)) == (Layout::Parsed { patch: p@, patch_checksum: stated }),
        covered(serialize_with(p@, stated)) == serialize_head(p@),
{
    let v = p@;
    let bytes = serialize_with(v, stated);
    let sums = le_bytes(v.src_checksum) + le_bytes(v.dst_checksum) + le_bytes(stated);
    let body = serialize_blocks(v.blocks);
    lemma_file_parts(v, stated);
    lemma_read_sums(v.src_checksum, v.dst_checksum, stated);
    lemma_decode_encode(v.src_size, encode(v.dst_size) + (body + sums));
    lemma_decode_encode(v.dst_size, body + sums);
    assert forall|i: int| 0 <= i < v.blocks.len() implies (#[trigger] v.blocks[i]).offset
        <= usize::MAX by {
        assert(v.blocks[i] == p.blocks@[i]@);
    }
    lemma_parse_blocks_serialize(v.blocks);
}

/// Round trip: parsing what `serialize` wrote for a patch with well-formed
/// blocks succeeds and gives a patch with the same blocks, sizes and
/// checksums.
pub proof fn lemma_parse_serialize(p: Patch, bytes: Seq<u8>, r: UpsParseResult<Patch>)
    requires
        p.wf(),
        bytes == serialize_with(p@, crc32(serialize_head(p@))),
        parse_outcome(bytes, Checksum(crc32(covered(bytes))), r),
    ensures
        r matches Ok(parsed) && parsed@ == p@,
{
    lemma_layout_of_file(p, crc32(serialize_head(p@)));
}

/// A file whose first four bytes are not the magic bytes is refused as a
/// format mismatch, whatever follows them.
pub proof fn lemma_corrupt_magic(
    bytes: Seq<u8>,
    front: Seq<u8>,
    actual: Checksum,
    r: UpsParseResult<Patch>,
)
    requires
        bytes.len() >= 4,
        front.len() == 4,
        front != magic(),
        parse_outcome(front + bytes.skip(4), actual, r),
    ensures
        r matches Err(UpsParseError::FormatMismatch(_)),
{
    let changed = front + bytes.skip(4);
    assert(changed.take(4) == front);
}

/// A patch file in which the last four bytes were replaced by another
/// checksum than the true one, by zero for one, is refused as a checksum
/// mismatch. The error holds the patch as it was written, the checksum found
/// in the file as the expected one, and the true one as the actual one.
pub proof fn lemma_corrupt_checksum(
    p: Patch,
    bytes: Seq<u8>,
    stated: u32,
    r: UpsParseResult<Patch>,
)
    requires
        p.wf(),
        bytes == serialize_with(p@, crc32(serialize_head(p@))),
        stated != crc32(serialize_head(p@)),
        parse_outcome(
            covered(bytes) + le_bytes(stated),
            Checksum(crc32(covered(covered(bytes) + le_bytes(stated)))),
            r,
        ),
    ensures
        r matches Err(UpsParseError::PatchChecksumMismatch { parsed_patch, expected, actual })
            && parsed_patch@ == p@ && expected.0 == stated && actual.0 == crc32(
            serialize_head(p@),
        ) && actual != expected,
{
    lemma_layout_of_file(p, crc32(serialize_head(p@)));
    lemma_layout_of_file(p, stated);
}

// ---------------------------------------------------------------------
// Diffs
// ---------------------------------------------------------------------
/// What `block_start` finds: it lies at or behind `from`, every byte
/// stepped over is zero, and it stops at a non-zero byte or no later than
/// the end of the shared positions.
pub proof fn lemma_block_start_found(x: Seq<u8>, shared: int, from: int)
    requires
        0 <= from,
        shared <= x.len(),
    ensures
        from <= block_start(x, shared, from),
        block_start(x, shared, from) <= shared || block_start(x, shared, from) == from,
        forall|i: int| from <= i < block_start(x, shared, from) ==> x[i] == 0,
        block_start(x, shared, from) >= shared || x[block_start(x, shared, from)] != 0,
    decreases shared - from,
{
    if from < shared && x[from] == 0 {
        lemma_block_start_found(x, shared, from + 1);
    }
}

/// Every block that `blocks_from` gives is a run of non-zero bytes closed by
/// one zero byte.
pub proof fn lemma_blocks_from_wf(x: Seq<u8>, shared: int, cursor: int)
    requires
        shared <= x.len(),
    ensures
        blocks_wf(blocks_from(x, shared, cursor)),
    decreases x.len() + 1 - cursor,
{
    let start = block_start(x, shared, cursor);
    if !(cursor < 0 || start < cursor || start >= x.len()) {
        let end = run_end(x, start);
        lemma_run_end_is_first_zero(x, start);
        lemma_blocks_from_wf(x, shared, end + 1);
        let first = BlockView {
            offset: (start - cursor) as nat,
            xor_data: x.subrange(start, end).push(0),
        };
        let later = blocks_from(x, shared, end + 1);
        let all = blocks_from(x, shared, cursor);
        assert(all == seq![first] + later);
        assert(block_wf(first));
        assert forall|i: int| 0 <= i < all.len() implies block_wf(#[trigger] all[i]) by {
            if i > 0 {
                assert(all[i] == later[i - 1]);
            }
        }
    }
}

/// Every block of a diff holds a run of non-zero bytes and ends in one zero
/// byte.
pub proof fn lemma_diff_blocks_end_in_zero(src: Seq<u8>, dst: Seq<u8>)
    ensures
        blocks_wf(differing_blocks(src, dst)),
        forall|i: int|
            0 <= i < differing_blocks(src, dst).len() ==> (#[trigger] differing_blocks(
                src,
                dst,
            )[i]).xor_data.last() == 0,
{
    lemma_xor_stream(src, dst);
    lemma_blocks_from_wf(xor_stream(src, dst), shared_len(src, dst), 0);
    assert forall|i: int| 0 <= i < differing_blocks(src, dst).len() implies (
    #[trigger] differing_blocks(src, dst)[i]).xor_data.last() == 0 by {
        assert(block_wf(differing_blocks(src, dst)[i]));
    }
}

/// A diff has no blocks exactly when the two buffers are equal. So the diff
/// of a buffer with itself is empty.
pub proof fn lemma_diff_empty_iff_equal(src: Seq<u8>, dst: Seq<u8>)
    ensures
        differing_blocks(src, dst).len() == 0 <==> src == dst,
{
    let x = xor_stream(src, dst);
    let shared = shared_len(src, dst);
    lemma_xor_stream(src, dst);
    lemma_block_start_found(x, shared, 0);
    let start = block_start(x, shared, 0);
    if src == dst {
        assert(start >= x.len()) by {
            if start < shared {
                assert(x[start] != 0);
            }
        }
    } else {
        if start >= x.len() {
            assert(src.len() == dst.len());
            assert forall|i: int| 0 <= i < src.len() implies src[i] == dst[i] by {
                assert(x[i] == 0);
            }
            assert(src =~= dst);
        }
        lemma_run_end_is_first_zero(x, start);
    }
}

/// Laying the blocks that cover `x` from `cursor` on over a buffer gives
/// `target`, if the buffer holds `target` before `cursor` and, from `cursor`
/// on, what `x` turns into `target`.
pub proof fn lemma_apply_blocks_from(
    x: Seq<u8>,
    shared: int,
    cursor: int,
    out: Seq<u8>,
    target: Seq<u8>,
)
    requires
        0 <= cursor,
        shared <= out.len() == target.len() <= x.len(),
        forall|i: int| 0 <= i < cursor && i < out.len() ==> out[i] == target[i],
        forall|i: int| cursor <= i < out.len() ==> out[i] ^ x[i] == target[i],
    ensures
        apply_blocks(out, cursor, blocks_from(x, shared, cursor)) == target,
    decreases x.len() + 1 - cursor,
{
    let start = block_start(x, shared, cursor);
    lemma_block_start_found(x, shared, cursor);
    assert forall|i: int| cursor <= i < out.len() && x[i] == 0 implies out[i] == target[i] by {
        let a = out[i];
        assert(a ^ 0 == a) by (bit_vector);
    }
    if start >= x.len() {
        assert(out =~= target);
    } else {
        let end = run_end(x, start);
        lemma_run_end_is_first_zero(x, start);
        let first = BlockView {
            offset: (start - cursor) as nat,
            xor_data: x.subrange(start, end).push(0),
        };
        let later = blocks_from(x, shared, end + 1);
        let all = blocks_from(x, shared, cursor);
        assert(all == seq![first] + later);
        assert(all[0] == first);
        assert(all.skip(1) == later);
        if start >= out.len() {
            assert(out =~= target);
        } else {
            let next = xor_onto(out, start, first.xor_data);
            assert forall|i: int| 0 <= i <= end && i < out.len() implies next[i] == target[i] by {
                if start <= i < end {
                    assert(first.xor_data[i - start] == x[i]);
                } else if i == end {
                    assert(first.xor_data[i - start] == 0);
                    let a = out[i];
                    assert(a ^ 0 == a) by (bit_vector);
                }
            }
            if first.xor_data.len() >= out.len() - start {
                assert(next =~= target);
            } else {
                lemma_apply_blocks_from(x, shared, end + 1, next, target);
            }
        }
    }
}

/// Diff and apply are inverse to each other: the blocks of the diff of `src`
/// and `dst` turn `src` into `dst`, and in the other direction `dst` into
/// `src`.
pub proof fn lemma_diff_restores(src: Seq<u8>, dst: Seq<u8>)
    ensures
        patched(differing_blocks(src, dst), src, src.len(), dst.len()) == dst,
        patched(differing_blocks(src, dst), dst, dst.len(), src.len()) == src,
{
    let x = xor_stream(src, dst);
    let shared = shared_len(src, dst);
    lemma_xor_stream(src, dst);
    let forth = seed(src, src.len(), dst.len());
    assert forall|i: int| 0 <= i < forth.len() implies forth[i] ^ x[i] == dst[i] by {
        let a = byte_at(src, i);
        let b = byte_at(dst, i);
        assert(a ^ (a ^ b) == b) by (bit_vector);
    }
    lemma_apply_blocks_from(x, shared, 0, forth, dst);
    let back = seed(dst, dst.len(), src.len());
    assert forall|i: int| 0 <= i < back.len() implies back[i] ^ x[i] == src[i] by {
        let a = byte_at(src, i);
        let b = byte_at(dst, i);
        assert(b ^ (a ^ b) == a) by (bit_vector);
    }
    lemma_apply_blocks_from(x, shared, 0, back, src);
}

/// Applying the patch that `diff` computes from `src` and `dst` to `src`
/// succeeds and gives `dst`.
pub proof fn lemma_apply_diff(p: Patch, src: &[u8], dst: &[u8], r: UpsPatchResult<Vec<u8>>)
    requires
        p@ == (PatchView {
            blocks: differing_blocks(src@, dst@),
            src_size: src@.len(),
            src_checksum: crc32(src@),
            dst_size: dst@.len(),
            dst_checksum: crc32(dst@),
        }),
        p.verdict(
            PatchDirection::Apply,
            src.len(),
            Checksum(crc32(src@)),
            p.output_for(PatchDirection::Apply, src@),
            Checksum(crc32(p.output_for(PatchDirection::Apply, src@))),
            r,
        ),
    ensures
        r matches Ok(bytes) && bytes@ == dst@,
{
    lemma_diff_restores(src@, dst@);
}

/// Reverting the patch that `diff` computes from `src` and `dst` on `dst`
/// succeeds and gives `src`.
pub proof fn lemma_revert_diff(p: Patch, src: &[u8], dst: &[u8], r: UpsPatchResult<Vec<u8>>)
    requires
        p@ == (PatchView {
            blocks: differing_blocks(src@, dst@),
            src_size: src@.len(),
            src_checksum: crc32(src@),
            dst_size: dst@.len(),
            dst_checksum: crc32(dst@),
        }),
        p.verdict(
            PatchDirection::Revert,
            dst.len(),
            Checksum(crc32(dst@)),
            p.output_for(PatchDirection::Revert, dst@),
            Checksum(crc32(p.output_for(PatchDirection::Revert, dst@))),
            r,
        ),
    ensures
        r matches Ok(bytes) && bytes@ == src@,
{
    lemma_diff_restores(src@, dst@);
}

} // verus!
