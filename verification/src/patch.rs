//! UPS patches: what they hold, and how they are applied and reverted.
use crate::checksum::{crc32, Checksum};
use crate::error::{reported, MetadataMismatch, UpsPatchError, UpsPatchErrors, UpsPatchResult};
use crate::model::{
    apply_blocks, block_wf, blocks_wf, patched, seed, xor_onto, BlockView, PatchView,
};
use vstd::prelude::*;

verus! {

/// UPS patch. Use [`parse`](Patch::parse) to read from a file and [`diff`](Patch::diff) to compute
/// a new patch from two files.
///
/// A patch encodes the difference between some `src` and some `dst` files. It contains metadata
/// from `src` and `dst` and a series of diff [`Block`]s.
///
/// You can [`apply`](Patch::apply) a patch to compute `dst` from `src` and
/// [`revert`](Patch::revert) it to compute `src` from `dst`.
#[derive(Clone, PartialEq, Eq, Debug)]
pub struct Patch {
    /// All blocks for the patch, in order.
    pub blocks: Vec<Block>,
    /// Source file size.
    pub src_size: usize,
    /// Source file checksum.
    pub src_checksum: Checksum,
    /// Destination file size.
    pub dst_size: usize,
    /// Destination file checksum.
    pub dst_checksum: Checksum,
}

/// Diff block in a [`Patch`].
#[derive(Clone, PartialEq, Eq, Debug)]
pub struct Block {
    /// Offset from the end of the previous diff block.
    pub offset: usize,
    /// Diff for this block, encoded as a zero-terminated XOR of `src` and `dst`.
    pub xor_data: Vec<u8>,
}

/// A diff block is also known as a hunk.
pub type Hunk = Block;

impl View for Block {
    type V = BlockView;

    open spec fn view(&self) -> BlockView {
        BlockView { offset: self.offset as nat, xor_data: self.xor_data@ }
    }
}

/// The blocks of a list as plain values.
pub open spec fn block_views(blocks: Seq<Block>) -> Seq<BlockView> {
    blocks.map_values(|b: Block| b@)
}

impl Block {
    /// The data of a well-formed block is a run of non-zero bytes closed by
    /// one zero byte.
    pub open spec fn wf(&self) -> bool {
        block_wf(self@)
    }
}

impl View for Patch {
    type V = PatchView;

    open spec fn view(&self) -> PatchView {
        PatchView {
            blocks: block_views(self.blocks@),
            src_size: self.src_size as nat,
            src_checksum: self.src_checksum.0,
            dst_size: self.dst_size as nat,
            dst_checksum: self.dst_checksum.0,
        }
    }
}

/// Patching direction, either from source to patched file or back.
#[derive(Debug, Clone, Copy, PartialEq, Eq, Structural, Hash)]
pub enum PatchDirection {
    /// Apply the patch to the source file.
    Apply,
    /// Get source file from patched file.
    Revert,
}

/// The sizes and checksums of a patch by the part they play in one direction:
/// `input` is the file that is handed in, `src` for `Apply` and `dst` for
/// `Revert`, and `output` is the other one.
#[derive(Debug, Clone, Copy, PartialEq, Eq, Structural)]
pub struct DirectionMetadata {
    pub input_size: usize,
    pub input_checksum: Checksum,
    pub output_size: usize,
    pub output_checksum: Checksum,
}

impl PatchDirection {
    /// The sizes and checksums of `patch` by the part they play.
    pub open spec fn roles(self, patch: &Patch) -> DirectionMetadata {
        match self {
            PatchDirection::Apply => DirectionMetadata {
                input_size: patch.src_size,
                input_checksum: patch.src_checksum,
                output_size: patch.dst_size,
                output_checksum: patch.dst_checksum,
            },
            PatchDirection::Revert => DirectionMetadata {
                input_size: patch.dst_size,
                input_checksum: patch.dst_checksum,
                output_size: patch.src_size,
                output_checksum: patch.src_checksum,
            },
        }
    }

    /// The error that names the input file of this direction.
    pub open spec fn input_error(self, mismatch: MetadataMismatch) -> UpsPatchError {
        match self {
            PatchDirection::Apply => UpsPatchError::SourceMetadataMismatch(mismatch),
            PatchDirection::Revert => UpsPatchError::DestMetadataMismatch(mismatch),
        }
    }

    /// The error that names the output file of this direction.
    pub open spec fn output_error(self, mismatch: MetadataMismatch) -> UpsPatchError {
        match self {
            PatchDirection::Apply => UpsPatchError::DestMetadataMismatch(mismatch),
            PatchDirection::Revert => UpsPatchError::SourceMetadataMismatch(mismatch),
        }
    }

    /// The mismatches that patching records, in the order in which it
    /// records them: the size of the input, its checksum, and the checksum of
    /// the output.
    pub open spec fn mismatches(
        self,
        expected: DirectionMetadata,
        input_len: usize,
        input_checksum: Checksum,
        output_checksum: Checksum,
    ) -> Seq<UpsPatchError> {
        (if expected.input_size != input_len {
            seq![
                self.input_error(
                    MetadataMismatch::Size { expected: expected.input_size, actual: input_len },
                ),
            ]
        } else {
            Seq::empty()
        }) + (if expected.input_checksum != input_checksum {
            seq![
                self.input_error(
                    MetadataMismatch::Checksum {
                        expected: expected.input_checksum,
                        actual: input_checksum,
                    },
                ),
            ]
        } else {
            Seq::empty()
        }) + (if expected.output_checksum != output_checksum {
            seq![
                self.output_error(
                    MetadataMismatch::Checksum {
                        expected: expected.output_checksum,
                        actual: output_checksum,
                    },
                ),
            ]
        } else {
            Seq::empty()
        })
    }

    pub fn metadata(&self, patch: &Patch) -> (r: DirectionMetadata)
        ensures
            r == self.roles(patch),
    {
        match self {
            PatchDirection::Apply => DirectionMetadata {
                input_size: patch.src_size,
                input_checksum: patch.src_checksum,
                output_size: patch.dst_size,
                output_checksum: patch.dst_checksum,
            },
            PatchDirection::Revert => DirectionMetadata {
                input_size: patch.dst_size,
                input_checksum: patch.dst_checksum,
                output_size: patch.src_size,
                output_checksum: patch.src_checksum,
            },
        }
    }

    pub fn input_metadata_error(&self, mismatch: MetadataMismatch) -> (r: UpsPatchError)
        ensures
            r == self.input_error(mismatch),
    {
        match self {
            PatchDirection::Apply => UpsPatchError::SourceMetadataMismatch(mismatch),
            PatchDirection::Revert => UpsPatchError::DestMetadataMismatch(mismatch),
        }
    }

    pub fn output_metadata_error(&self, mismatch: MetadataMismatch) -> (r: UpsPatchError)
        ensures
            r == self.output_error(mismatch),
    {
        match self {
            PatchDirection::Apply => UpsPatchError::DestMetadataMismatch(mismatch),
            PatchDirection::Revert => UpsPatchError::SourceMetadataMismatch(mismatch),
        }
    }
}

impl Patch {
    /// A patch is well formed when each of its blocks is. Such a patch is
    /// read back from its file as it was written. A diff is well formed; a
    /// patch read from a file is as well formed as the file.
    pub open spec fn wf(&self) -> bool {
        blocks_wf(self@.blocks)
    }

    /// What the patch makes of `input` in one direction.
    pub open spec fn output_for(&self, direction: PatchDirection, input: Seq<u8>) -> Seq<u8> {
        patched(
            self@.blocks,
            input,
            direction.roles(self).input_size as nat,
            direction.roles(self).output_size as nat,
        )
    }

    /// What `patch` returns once both checksums are known.
    pub open spec fn verdict(
        &self,
        direction: PatchDirection,
        input_len: usize,
        input_checksum: Checksum,
        output: Seq<u8>,
        output_checksum: Checksum,
        r: UpsPatchResult<Vec<u8>>,
    ) -> bool {
        let found = direction.mismatches(
            direction.roles(self),
            input_len,
            input_checksum,
            output_checksum,
        );
        match r {
            Ok(bytes) => found.len() == 0 && bytes@ == output,
            Err(errors) => found.len() > 0 && errors.output@ == output && errors.listed()
                == reported(found),
        }
    }

    /// Builds the output of one direction, unchecked: a buffer of the size
    /// that the patch states for the output, zero but for what it takes from
    /// the front of `input`, with the blocks XORed onto it in order. Blocks
    /// that reach past the end of the buffer are cut off, and those behind
    /// them are left out.
    pub fn transform(&self, direction: PatchDirection, input: &[u8]) -> (output: Vec<u8>)
        ensures
            output@ == self.output_for(direction, input@),
    {
        let metadata = direction.metadata(self);
        let mut output: Vec<u8> = Vec::new();
        let mut filled: usize = 0;
        while filled < metadata.output_size
            invariant
                filled <= metadata.output_size,
                output@ == seed(input@, metadata.input_size as nat, filled as nat),
            decreases metadata.output_size - filled,
        {
            if filled < metadata.input_size && filled < input.len() {
                output.push(input[filled]);
            } else {
                output.push(0);
            }
            filled += 1;
        }
        let ghost views = block_views(self.blocks@);
        let ghost goal = self.output_for(direction, input@);
        let mut cursor: usize = 0;
        let mut k: usize = 0;
        let mut stopped = false;
        assert(views.skip(0) == views);
        while !stopped && k < self.blocks.len()
            invariant
                k <= self.blocks@.len(),
                views == block_views(self.blocks@),
                cursor <= output@.len(),
                goal == if stopped {
                    output@
                } else {
                    apply_blocks(output@, cursor as int, views.skip(k as int))
                },
            decreases self.blocks@.len() - k, if stopped { 0int } else { 1int },
        {
            let block = &self.blocks[k];
            proof {
                assert(views.skip(k as int)[0] == block@);
                assert(views.skip(k as int).skip(1) == views.skip(k + 1));
            }
            if block.offset >= output.len() - cursor {
                stopped = true;
            } else {
                let at: usize = cursor + block.offset;
                let room: usize = output.len() - at;
                let count: usize = if block.xor_data.len() < room {
                    block.xor_data.len()
                } else {
                    room
                };
                let ghost before = output@;
                let mut j: usize = 0;
                while j < count
                    invariant
                        j <= count,
                        count <= block.xor_data@.len(),
                        at + count <= output@.len() <= usize::MAX,
                        output@.len() == before.len(),
                        forall|i: int|
                            0 <= i < before.len() ==> output@[i] == if at <= i < at + j {
                                before[i] ^ block.xor_data@[i - at]
                            } else {
                                before[i]
                            },
                    decreases count - j,
                {
                    let mixed: u8 = output[at + j] ^ block.xor_data[j];
                    output[at + j] = mixed;
                    j += 1;
                }
                assert(output@ == xor_onto(before, at as int, block@.xor_data));
                if block.xor_data.len() >= room {
                    stopped = true;
                } else {
                    cursor = at + block.xor_data.len();
                    k += 1;
                }
            }
        }
        output
    }

    /// Settles what patching returns once the checksums of the input and of
    /// the output are known: `output` itself where sizes and checksums are as
    /// the patch states them, else every mismatch, with `output` beside them.
    pub fn validate(
        &self,
        direction: PatchDirection,
        input_len: usize,
        input_checksum: Checksum,
        output: Vec<u8>,
        output_checksum: Checksum,
    ) -> (r: UpsPatchResult<Vec<u8>>)
        ensures
            self.verdict(direction, input_len, input_checksum, output@, output_checksum, r),
    {
        let metadata = direction.metadata(self);
        let mut errors: Vec<UpsPatchError> = Vec::new();
        if let Some(err) = MetadataMismatch::size(metadata.input_size, input_len) {
            errors.push(direction.input_metadata_error(err));
        }
        if let Some(err) = MetadataMismatch::checksum(metadata.input_checksum, input_checksum) {
            errors.push(direction.input_metadata_error(err));
        }
        if let Some(err) = MetadataMismatch::checksum(metadata.output_checksum, output_checksum) {
            errors.push(direction.output_metadata_error(err));
        }
        assert(errors@ == direction.mismatches(
            direction.roles(self),
            input_len,
            input_checksum,
            output_checksum,
        ));
        UpsPatchErrors::check_errors(output, errors)
    }

    /// Applies or reverts a patch on the given buffer and return the raw output bytes.
    pub fn patch(&self, direction: PatchDirection, input: &[u8]) -> (r: UpsPatchResult<Vec<u8>>)
        ensures
            self.verdict(
                direction,
                input.len(),
                Checksum(crc32(input@)),
                self.output_for(direction, input@),
                Checksum(crc32(self.output_for(direction, input@))),
                r,
            ),
    {
        let input_checksum = Checksum::from_bytes(input);
        let output = self.transform(direction, input);
        let output_checksum = Checksum::from_bytes(output.as_slice());
        self.validate(direction, input.len(), input_checksum, output, output_checksum)
    }

    /// Apply patch to source data. Returns the contents of the patched file.
    pub fn apply(&self, src: &[u8]) -> (r: UpsPatchResult<Vec<u8>>)
        ensures
            self.verdict(
                PatchDirection::Apply,
                src.len(),
                Checksum(crc32(src@)),
                self.output_for(PatchDirection::Apply, src@),
                Checksum(crc32(self.output_for(PatchDirection::Apply, src@))),
                r,
            ),
    {
        self.patch(PatchDirection::Apply, src)
    }

    /// Revert patch applied to the given buffer. Returns the contents of the reverted file.
    pub fn revert(&self, dst: &[u8]) -> (r: UpsPatchResult<Vec<u8>>)
        ensures
            self.verdict(
                PatchDirection::Revert,
                dst.len(),
                Checksum(crc32(dst@)),
                self.output_for(PatchDirection::Revert, dst@),
                Checksum(crc32(self.output_for(PatchDirection::Revert, dst@))),
                r,
            ),
    {
        self.patch(PatchDirection::Revert, dst)
    }
}

} // verus!
