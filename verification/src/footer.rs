//! The block tables of the footer.

use vstd::prelude::*;

verus! {

/// The largest offset and the largest body length that a block can hold: the
/// footer stores both in signed 64-bit fields.
pub const MAX_OFFSET: u64 = 0x7fff_ffff_ffff_ffff;

/// Where one framed message lies in the file and how long its two segments
/// are.
#[derive(Debug, Clone, Copy, PartialEq, Eq, Structural)]
pub struct Block {
    /// The position of the frame's first byte, counted from the start of the
    /// file.
    pub offset: u64,
    /// The length of the frame's metadata segment, its length prefix and
    /// padding included.
    pub metadata_length: u32,
    /// The length of the frame's body segment, padding included.
    pub body_length: u64,
}

impl Block {
    /// The position just behind the frame that the block describes.
    pub open spec fn end(self) -> int {
        self.offset + self.metadata_length + self.body_length
    }
}

} // verus!
