use ups::{Block, Checksum, Patch, SliceDiffs};

// A small generator of numbers, so that the cases are the same in every run.
fn step(state: &mut u64) -> u64 {
    *state ^= *state << 13;
    *state ^= *state >> 7;
    *state ^= *state << 17;
    *state
}

// Buffers over few values, so that equal bytes and zero bytes are common.
fn file(state: &mut u64) -> Vec<u8> {
    let len = (step(state) % 32) as usize;
    let values = match step(state) % 3 {
        0 => 2,
        1 => 4,
        _ => 256,
    };
    (0..len).map(|_| (step(state) % values) as u8).collect()
}

fn block(offset: usize, xor_data: &[u8]) -> Block {
    Block { offset, xor_data: xor_data.to_vec() }
}

#[test]
fn test_from_equal_files_results_in_empty_patch() {
    let mut state = 0x2545_f491_4f6c_dd1du64;
    for _ in 0..500 {
        let f = file(&mut state);
        let patch = Patch::diff(&f, &f);
        assert_eq!(patch.blocks, Vec::new());
    }
}

#[test]
fn diff_has_no_blocks_only_for_equal_files() {
    let mut state = 0x1111_2222_3333_4444u64;
    for _ in 0..2000 {
        let src = file(&mut state);
        let dst = file(&mut state);
        assert_eq!(Patch::diff(&src, &dst).blocks.is_empty(), src == dst);
    }
    assert!(!Patch::diff(&[1, 2, 3], &[1, 2, 3, 0, 0]).blocks.is_empty());
    assert!(!Patch::diff(&[0], &[]).blocks.is_empty());
}

#[test]
fn test_diff_apply_results_in_dst() {
    let mut state = 0x9e37_79b9_7f4a_7c15u64;
    for _ in 0..3000 {
        let src = file(&mut state);
        let dst = file(&mut state);
        let patch = Patch::diff(&src, &dst);
        match patch.apply(&src) {
            Ok(p) => assert_eq!(p, dst),
            Err(e) => panic!("{:?}", e.output),
        }
    }
}

#[test]
fn test_diff_revert_results_in_src() {
    let mut state = 0xdead_beef_cafe_f00du64;
    for _ in 0..3000 {
        let src = file(&mut state);
        let dst = file(&mut state);
        let patch = Patch::diff(&src, &dst);
        let applied = patch.revert(&dst).unwrap();
        assert_eq!(applied, src);
    }
}

#[test]
fn test_diff_blocks_xor_data_should_end_in_0() {
    let mut state = 0x0f0f_0f0f_1234_4321u64;
    for _ in 0..2000 {
        let src = file(&mut state);
        let dst = file(&mut state);
        let patch = Patch::diff(&src, &dst);
        for block in patch.blocks {
            assert_eq!(block.xor_data.last(), Some(&0), "block should end in 0: {:?}", block.xor_data);
            assert!(!block.xor_data[..block.xor_data.len() - 1].contains(&0));
        }
    }
}

#[test]
fn test_diff_empty_src_should_result_in_dst_split_by_0() {
    let mut state = 0x7777_0000_1111_9999u64;
    for _ in 0..500 {
        let n_blocks = (step(&mut state) % 8) as usize;
        let mut blocks: Vec<Vec<u8>> = Vec::new();
        for _ in 0..n_blocks {
            let len = 1 + (step(&mut state) % 63) as usize;
            let mut v: Vec<u8> = (0..len).map(|_| 1 + (step(&mut state) % 255) as u8).collect();
            // blocks are zero-terminated
            v.push(0);
            blocks.push(v);
        }
        let dst: Vec<u8> = blocks.iter().flatten().copied().collect();
        let patch = Patch::diff(&[], &dst);
        let expected_blocks: Vec<Block> =
            blocks.into_iter().map(|xor_data| Block { offset: 0, xor_data }).collect();
        assert_eq!(patch.blocks, expected_blocks);
    }
}

#[test]
fn diff_splits_at_embedded_zero() {
    let patch = Patch::diff(&[], &[0x41, 0x00, 0x42]);
    assert_eq!(patch.blocks, vec![block(0, &[0x41, 0x00]), block(0, &[0x42, 0x00])]);
    assert_eq!(patch.src_size, 0);
    assert_eq!(patch.dst_size, 3);
    assert_eq!(patch.src_checksum, Checksum(0));
    assert_eq!(patch.dst_checksum, Checksum::from_bytes(&[0x41, 0x00, 0x42]));
}

#[test]
fn diff_exact_blocks_in_shared_part() {
    // One stretch in the middle.
    assert_eq!(Patch::diff(&[1, 2, 3], &[1, 7, 3]).blocks, vec![block(1, &[5, 0])]);
    // Two stretches: the second offset counts from behind the first closing zero.
    assert_eq!(
        Patch::diff(&[1, 2, 3, 4, 5, 6, 7], &[1, 0, 0, 4, 5, 6, 0]).blocks,
        vec![block(1, &[2, 3, 0]), block(2, &[7, 0])]
    );
    // Neighbouring stretches with one equal byte between them.
    assert_eq!(
        Patch::diff(&[9, 1, 9], &[8, 1, 8]).blocks,
        vec![block(0, &[1, 0]), block(0, &[1, 0])]
    );
    // A stretch that ends where both files end.
    assert_eq!(Patch::diff(&[1, 2], &[1, 3]).blocks, vec![block(1, &[1, 0])]);
}

#[test]
fn diff_exact_blocks_behind_shared_part() {
    // The longer file goes on: a block starts where the shorter one ends.
    assert_eq!(
        Patch::diff(&[1, 2, 3], &[1, 7, 3, 9]).blocks,
        vec![block(1, &[5, 0]), block(0, &[9, 0])]
    );
    assert_eq!(Patch::diff(&[1, 2, 3], &[1, 2, 3, 9, 8]).blocks, vec![block(3, &[9, 8, 0])]);
    // The same blocks whichever of the two is the longer one.
    assert_eq!(Patch::diff(&[1, 2, 3, 9, 8], &[1, 2, 3]).blocks, vec![block(3, &[9, 8, 0])]);
    // A stretch that reaches the end of the shorter file runs on into the rest.
    assert_eq!(Patch::diff(&[1, 2], &[1, 3, 4, 5]).blocks, vec![block(1, &[1, 4, 5, 0])]);
    assert_eq!(
        Patch::diff(&[1, 2], &[1, 3, 4, 0, 6]).blocks,
        vec![block(1, &[1, 4, 0]), block(0, &[6, 0])]
    );
    // ... and its closing zero may be the first byte of the rest.
    assert_eq!(
        Patch::diff(&[1, 2], &[1, 3, 0, 6]).blocks,
        vec![block(1, &[1, 0]), block(0, &[6, 0])]
    );
}

#[test]
fn diff_zero_bytes_behind_shared_part() {
    // Every zero byte behind the shared part closes a block of its own.
    assert_eq!(
        Patch::diff(&[], &[0x00, 0x41]).blocks,
        vec![block(0, &[0]), block(0, &[0x41, 0])]
    );
    assert_eq!(
        Patch::diff(&[1, 2, 3], &[1, 2, 3, 0, 0]).blocks,
        vec![block(3, &[0]), block(0, &[0])]
    );
    assert_eq!(
        Patch::diff(&[5], &[5, 0x41, 0, 0, 0x42]).blocks,
        vec![block(1, &[0x41, 0]), block(0, &[0]), block(0, &[0x42, 0])]
    );
    assert_eq!(Patch::diff(&[], &[7, 0]).blocks, vec![block(0, &[7, 0])]);
}

#[test]
fn diff_blocks_alone() {
    assert_eq!(Patch::diff_blocks(&[1, 2, 3], &[1, 7, 3]), vec![block(1, &[5, 0])]);
    assert_eq!(Patch::diff_blocks(&[], &[]), vec![]);
}

#[test]
fn diff_metadata() {
    let patch = Patch::diff(b"hello", b"123456789");
    assert_eq!(patch.src_size, 5);
    assert_eq!(patch.dst_size, 9);
    assert_eq!(patch.src_checksum, Checksum(0x3610_a686));
    assert_eq!(patch.dst_checksum, Checksum(0xcbf4_3926));
}

#[test]
fn diff_survives_the_file_format() {
    let mut state = 0x5151_5151_a0a0_0a0au64;
    for _ in 0..500 {
        let src = file(&mut state);
        let dst = file(&mut state);
        let patch = Patch::diff(&src, &dst);
        let parsed = Patch::parse(&patch.serialize()).unwrap();
        assert_eq!(parsed, patch);
        assert_eq!(parsed.apply(&src).unwrap(), dst);
    }
}

fn ranges(a: &[u8], b: &[u8]) -> Vec<(usize, usize)> {
    let mut diffs = SliceDiffs::new(a, b);
    let mut found = Vec::new();
    while let Some(range) = diffs.next() {
        found.push((range.start, range.end));
    }
    assert_eq!(diffs.next(), None);
    found
}

#[test]
fn slice_diffs_gives_maximal_ranges() {
    assert_eq!(ranges(&[], &[]), vec![]);
    assert_eq!(ranges(&[1, 2, 3], &[1, 2, 3]), vec![]);
    assert_eq!(ranges(&[1, 2, 3], &[9, 2, 3]), vec![(0, 1)]);
    assert_eq!(ranges(&[1, 2, 3], &[1, 9, 9]), vec![(1, 3)]);
    assert_eq!(ranges(&[1, 2, 3, 4, 5], &[0, 2, 0, 0, 5]), vec![(0, 1), (2, 4)]);
    // Only the positions that both have count.
    assert_eq!(ranges(&[1, 2, 3, 4, 5], &[1, 0]), vec![(1, 2)]);
    assert_eq!(ranges(&[1, 2], &[1, 2, 3, 4]), vec![]);
    assert_eq!(ranges(&[], &[1, 2]), vec![]);
}

#[test]
fn slice_diffs_ranges_are_exactly_the_differences() {
    let mut state = 0x3c3c_3c3c_c3c3_c3c3u64;
    for _ in 0..1000 {
        let a = file(&mut state);
        let b = file(&mut state);
        let shared = a.len().min(b.len());
        let mut differs = vec![false; shared];
        let mut last_end = None;
        for (start, end) in ranges(&a, &b) {
            assert!(start < end && end <= shared);
            // No range can be made longer on either side.
            assert!(start == 0 || a[start - 1] == b[start - 1]);
            assert!(end == shared || a[end] == b[end]);
            if let Some(last) = last_end {
                assert!(start > last);
            }
            for i in start..end {
                differs[i] = true;
            }
            last_end = Some(end);
        }
        for i in 0..shared {
            assert_eq!(differs[i], a[i] != b[i]);
        }
    }
}
