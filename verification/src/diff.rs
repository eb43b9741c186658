//! Computing a patch from two buffers.
use crate::checksum::{crc32, Checksum};
use crate::laws::{lemma_diff_blocks_end_in_zero, lemma_diff_empty_iff_equal};
use crate::model::{
    block_start, blocks_from, blocks_wf, differing_blocks, lemma_block_start,
    lemma_blocks_from_step, lemma_run_end, lemma_xor_stream, longer_of, xor_stream, BlockView, PatchView,
};
use crate::patch::{block_views, Block, Patch};
use crate::util::{shared_len, SliceDiffs};
use vstd::prelude::*;
use vstd::slice::slice_subrange;

verus! {

/// Appends the bytes of `bytes` from `from` up to `to`, and then a zero byte.
fn push_run(data: &mut Vec<u8>, bytes: &[u8], from: usize, to: usize)
    requires
        from <= to <= bytes@.len(),
    ensures
        final(data)@ == old(data)@ + bytes@.subrange(from as int, to as int).push(0),
{
    let mut i: usize = from;
    while i < to
        invariant
            from <= i <= to <= bytes@.len(),
            data@ == old(data)@ + bytes@.subrange(from as int, i as int),
        decreases to - i,
    {
        data.push(bytes[i]);
        i += 1;
        assert(bytes@.subrange(from as int, i as int) == bytes@.subrange(from as int, i - 1).push(
            bytes@[i - 1],
        ));
    }
    data.push(0);
}

impl Patch {
    /// The blocks that tell `src` and `dst` apart. Among the positions that
    /// both have, each block covers one stretch of differing bytes. What only
    /// the longer one has is cut into blocks behind each of its zero bytes.
    pub fn diff_blocks(src: &[u8], dst: &[u8]) -> (blocks: Vec<Block>)
        ensures
            block_views(blocks@) == differing_blocks(src@, dst@),
            blocks_wf(block_views(blocks@)),
            blocks@.len() == 0 <==> src@ == dst@,
    {
        let shared: usize = if src.len() < dst.len() {
            src.len()
        } else {
            dst.len()
        };
        let longer: &[u8] = if src.len() < dst.len() {
            dst
        } else {
            src
        };
        let ghost x = xor_stream(src@, dst@);
        let ghost total = differing_blocks(src@, dst@);
        proof {
            lemma_xor_stream(src@, dst@);
            lemma_diff_blocks_end_in_zero(src@, dst@);
            lemma_diff_empty_iff_equal(src@, dst@);
        }
        let mut blocks: Vec<Block> = Vec::new();
        // Where the block before ended, its closing zero byte counted in.
        let mut cursor: usize = 0;
        let mut finished = false;
        let mut diffs = SliceDiffs::new(src, dst);
        loop
            invariant
                diffs.wf(),
                diffs.left() == src@,
                diffs.right() == dst@,
                shared == shared_len(src@, dst@),
                x == xor_stream(src@, dst@),
                longer@ == longer_of(src@, dst@),
                x.len() == longer@.len(),
                shared <= x.len(),
                forall|i: int| 0 <= i < shared ==> #[trigger] x[i] == src@[i] ^ dst@[i],
                forall|i: int| 0 <= i < shared ==> (#[trigger] x[i] == 0 <==> src@[i] == dst@[i]),
                forall|i: int| shared <= i < x.len() ==> #[trigger] x[i] == longer@[i],
                cursor <= x.len(),
                !finished ==> diffs.position() <= cursor,
                forall|i: int|
                    !finished && diffs.position() <= i < cursor && i < shared ==> src@[i]
                        == dst@[i],
                if finished {
                    block_views(blocks@) == total
                } else {
                    block_views(blocks@) + blocks_from(x, shared as int, cursor as int) == total
                },
            ensures
                finished || forall|i: int| cursor <= i < shared ==> src@[i] == dst@[i],
            decreases shared - diffs.position(), if finished { 0int } else { 1int },
        {
            if finished {
                break;
            }
            let range = match diffs.next() {
                Some(range) => range,
                None => {
                    break;
                },
            };
            proof {
                assert(src@[range.start as int] != dst@[range.start as int]);
                assert(x[range.start as int] != 0);
                lemma_block_start(x, shared as int, cursor as int, range.start as int);
            }
            let mut xor_data: Vec<u8> = Vec::new();
            let mut i: usize = range.start;
            while i < range.end
                invariant
                    range.start <= i <= range.end <= shared,
                    shared == shared_len(src@, dst@),
                    shared <= x.len(),
                    forall|i: int| 0 <= i < shared ==> #[trigger] x[i] == src@[i] ^ dst@[i],
                    xor_data@ == x.subrange(range.start as int, i as int),
                decreases range.end - i,
            {
                xor_data.push(src[i] ^ dst[i]);
                i += 1;
                assert(x.subrange(range.start as int, i as int) == x.subrange(
                    range.start as int,
                    i - 1,
                ).push(x[i - 1]));
            }
            let mut end: usize = range.end;
            if end == shared {
                // The stretch runs on into what only the longer buffer has.
                let tail = slice_subrange(longer, shared, longer.len());
                let run: usize = match memchr::memchr(0, tail) {
                    Some(at) => at,
                    None => tail.len(),
                };
                end = shared + run;
                push_run(&mut xor_data, longer, shared, end);
                assert(xor_data@ == x.subrange(range.start as int, end as int).push(0)) by {
                    assert(longer@.subrange(shared as int, end as int) == x.subrange(
                        shared as int,
                        end as int,
                    ));
                    assert(x.subrange(range.start as int, end as int) == x.subrange(
                        range.start as int,
                        shared as int,
                    ) + x.subrange(shared as int, end as int));
                }
                assert forall|i: int| shared <= i < end implies x[i] != 0 by {
                    assert(x[i] == tail@[i - shared]);
                }
                assert(end == x.len() || x[end as int] == 0) by {
                    if end < x.len() {
                        assert(x[end as int] == tail@[end - shared]);
                    }
                }
            } else {
                xor_data.push(0);
            }
            proof {
                lemma_run_end(x, range.start as int, end as int);
            }
            let ghost before = blocks@;
            let block = Block { offset: range.start - cursor, xor_data };
            blocks.push(block);
            proof {
                lemma_blocks_from_step(
                    x,
                    shared as int,
                    cursor as int,
                    range.start as int,
                    end as int,
                    block_views(before),
                );
                assert(block_views(blocks@) == block_views(before).push(block@));
            }
            if end == longer.len() {
                finished = true;
            } else {
                cursor = end + 1;
            }
        }
        if !finished {
            let mut start: usize = if cursor > shared {
                cursor
            } else {
                shared
            };
            let mut offset: usize = start - cursor;
            let ghost mut from: int = cursor as int;
            proof {
                if cursor <= shared {
                    lemma_block_start(x, shared as int, cursor as int, shared as int);
                }
            }
            while !finished && start < longer.len()
                invariant
                    x.len() == longer@.len(),
                    shared <= x.len(),
                    forall|i: int| shared <= i < x.len() ==> #[trigger] x[i] == longer@[i],
                    0 <= from <= start <= x.len(),
                    shared <= start,
                    offset == start - from,
                    block_start(x, shared as int, from) == start,
                    if finished {
                        block_views(blocks@) == total
                    } else {
                        block_views(blocks@) + blocks_from(x, shared as int, from) == total
                    },
                decreases longer@.len() - start, if finished { 0int } else { 1int },
            {
                let rest = slice_subrange(longer, start, longer.len());
                let run: usize = match memchr::memchr(0, rest) {
                    Some(at) => at,
                    None => rest.len(),
                };
                let end: usize = start + run;
                let mut xor_data: Vec<u8> = Vec::new();
                push_run(&mut xor_data, longer, start, end);
                proof {
                    assert(longer@.subrange(start as int, end as int) == x.subrange(
                        start as int,
                        end as int,
                    ));
                    assert forall|i: int| start <= i < end implies x[i] != 0 by {
                        assert(x[i] == rest@[i - start]);
                    }
                    assert(end == x.len() || x[end as int] == 0) by {
                        if end < x.len() {
                            assert(x[end as int] == rest@[end - start]);
                        }
                    }
                    lemma_run_end(x, start as int, end as int);
                }
                let ghost before = blocks@;
                let block = Block { offset, xor_data };
                blocks.push(block);
                proof {
                    lemma_blocks_from_step(
                        x,
                        shared as int,
                        from,
                        start as int,
                        end as int,
                        block_views(before),
                    );
                    assert(block_views(blocks@) == block_views(before).push(block@));
                }
                if end == longer.len() {
                    finished = true;
                } else {
                    start = end + 1;
                    offset = 0;
                    proof {
                        from = start as int;
                    }
                }
            }
            proof {
                if !finished {
                    assert(blocks_from(x, shared as int, from) == Seq::<BlockView>::empty());
                    assert(block_views(blocks@) + Seq::<BlockView>::empty() == block_views(
                        blocks@,
                    ));
                }
            }
        }
        blocks
    }

    /// Calculate a patch by comparing the source and destination files.
    pub fn diff(src: &[u8], dst: &[u8]) -> (patch: Patch)
        ensures
            patch@ == (PatchView {
                blocks: differing_blocks(src@, dst@),
                src_size: src@.len(),
                src_checksum: crc32(src@),
                dst_size: dst@.len(),
                dst_checksum: crc32(dst@),
            }),
            patch.wf(),
            patch.blocks@.len() == 0 <==> src@ == dst@,
    {
        Patch {
            blocks: Patch::diff_blocks(src, dst),
            src_size: src.len(),
            src_checksum: Checksum::from_bytes(src),
            dst_size: dst.len(),
            dst_checksum: Checksum::from_bytes(dst),
        }
    }
}

} // verus!
