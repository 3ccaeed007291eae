//! The message framer: how one encoded message is laid out in the file.
//!
//! A frame is a four-byte little-endian length, the message's metadata, zero
//! bytes up to the next multiple of eight, the message's body, and again zero
//! bytes up to the next multiple of eight. The length counts the metadata and
//! its padding. A length of zero where a frame would start says that no
//! further message follows.

use vstd::prelude::*;
use vstd::array::array_as_slice;
use vstd::slice::slice_subrange;
use crate::bytes::{aligned, le_bytes, lemma_aligned, padding, padding_for, to_le_bytes, zeros};
use crate::error::Error;

verus! {

/// The number of bytes of the length that opens a frame.
pub const PREFIX_LEN: usize = 4;

/// The longest metadata segment of a frame, its length prefix and padding
/// included: the footer stores it in a signed 32-bit field.
pub const MAX_METADATA_LEN: usize = 0x7fff_ffff;

/// The longest body segment of a frame, padding included: the footer stores
/// it in a signed 64-bit field.
pub const MAX_BODY_LEN: u64 = 0x7fff_ffff_ffff_ffff;

/// An encoded message as a pair of byte sequences.
pub struct Message {
    /// The self-describing header of the message.
    pub metadata: Seq<u8>,
    /// The raw column data of the message.
    pub body: Seq<u8>,
}

/// An encoded message: what the batch encoder produces and the framer writes.
#[derive(Debug)]
pub struct EncodedData {
    /// The bytes of the message's metadata.
    pub ipc_message: Vec<u8>,
    /// The bytes of the message's body.
    pub arrow_data: Vec<u8>,
}

impl View for EncodedData {
    type V = Message;

    open spec fn view(&self) -> Message {
        Message { metadata: self.ipc_message@, body: self.arrow_data@ }
    }
}

impl Default for EncodedData {
    /// The message without metadata and without body.
    fn default() -> (empty: EncodedData)
        ensures
            empty@.metadata.len() == 0,
            empty@.body.len() == 0,
    {
        EncodedData { ipc_message: Vec::new(), arrow_data: Vec::new() }
    }
}

impl EncodedData {
    /// The message with the given metadata and body.
    pub fn new(ipc_message: Vec<u8>, arrow_data: Vec<u8>) -> (message: EncodedData)
        ensures
            message@.metadata == ipc_message@,
            message@.body == arrow_data@,
    {
        EncodedData { ipc_message, arrow_data }
    }

    /// A message with the same bytes.
    pub fn duplicate(&self) -> (copy: EncodedData)
        ensures
            copy@ == self@,
    {
        let copy = EncodedData {
            ipc_message: self.ipc_message.clone(),
            arrow_data: self.arrow_data.clone(),
        };
        assert(copy.ipc_message@ =~= self.ipc_message@);
        assert(copy.arrow_data@ =~= self.arrow_data@);
        copy
    }

    /// Whether two messages hold the same bytes.
    pub fn same_bytes(&self, other: &EncodedData) -> (same: bool)
        ensures
            same == (self@ == other@),
    {
        let same = bytes_equal(self.ipc_message.as_slice(), other.ipc_message.as_slice())
            && bytes_equal(self.arrow_data.as_slice(), other.arrow_data.as_slice());
        same
    }
}

/// Whether two byte strings are equal.
pub fn bytes_equal(a: &[u8], b: &[u8]) -> (same: bool)
    ensures
        same == (a@ == b@),
{
    if a.len() != b.len() {
        return false;
    }
    let mut i: usize = 0;
    while i < a.len()
        invariant
            a@.len() == b@.len(),
            i <= a@.len(),
            forall|k: int| 0 <= k < i ==> a@[k] == b@[k],
        decreases a@.len() - i,
    {
        if a[i] != b[i] {
            return false;
        }
        i += 1;
    }
    assert(a@ =~= b@);
    true
}

/// The length of a frame's metadata segment: prefix, metadata and padding.
pub open spec fn frame_metadata_len(m: Message) -> nat {
    aligned(PREFIX_LEN as nat + m.metadata.len())
}

/// The length of a frame's body segment: body and padding.
pub open spec fn frame_body_len(m: Message) -> nat {
    aligned(m.body.len())
}

/// The length of a whole frame.
pub open spec fn frame_len(m: Message) -> nat {
    frame_metadata_len(m) + frame_body_len(m)
}

/// Whether the message can be framed: both segment lengths fit the fields
/// that the format stores them in, and the counts that the framer returns.
pub open spec fn fits_frame(m: Message) -> bool {
    &&& frame_metadata_len(m) <= MAX_METADATA_LEN
    &&& frame_body_len(m) <= MAX_BODY_LEN
    &&& frame_body_len(m) <= usize::MAX
}

/// The four bytes that say how many bytes of metadata follow; zero says that
/// no message follows.
pub open spec fn continuation(total_len: i32) -> Seq<u8> {
    le_bytes(total_len as u32)
}

/// The metadata segment of a frame.
pub open spec fn frame_metadata(m: Message) -> Seq<u8> {
    continuation((frame_metadata_len(m) - PREFIX_LEN) as i32) + m.metadata + zeros(
        padding(PREFIX_LEN as nat + m.metadata.len()),
    )
}

/// The body segment of a frame.
pub open spec fn frame_body(m: Message) -> Seq<u8> {
    m.body + zeros(padding(m.body.len()))
}

/// The bytes of a framed message.
pub open spec fn frame(m: Message) -> Seq<u8> {
    frame_metadata(m) + frame_body(m)
}

/// The segments of a frame have the lengths that the block tables record.
pub proof fn lemma_frame_len(m: Message)
    ensures
        frame_metadata(m).len() == frame_metadata_len(m),
        frame_body(m).len() == frame_body_len(m),
        frame(m).len() == frame_len(m),
        frame_metadata_len(m) % 8 == 0,
        frame_body_len(m) % 8 == 0,
        frame_metadata_len(m) >= 8,
{
    lemma_aligned(PREFIX_LEN as nat + m.metadata.len());
    lemma_aligned(m.body.len());
}

/// Appends the four-byte marker that opens a frame with the length of its
/// metadata, or, with a length of zero, closes the stream of messages.
/// Returns the number of bytes appended, which is four.
pub fn write_continuation(writer: &mut Vec<u8>, total_len: i32) -> (written: usize)
    ensures
        written == 4,
        final(writer)@ == old(writer)@ + continuation(total_len),
{
    let bytes = to_le_bytes(total_len as u32);
    writer.extend_from_slice(array_as_slice(&bytes));
    assert(writer@ =~= old(writer)@ + continuation(total_len));
    4
}

/// Appends `count` zero bytes.
fn write_padding(writer: &mut Vec<u8>, count: usize)
    requires
        count < 8,
    ensures
        final(writer)@ == old(writer)@ + zeros(count as nat),
{
    let pad: [u8; 8] = [0, 0, 0, 0, 0, 0, 0, 0];
    let slice = slice_subrange(array_as_slice(&pad), 0, count);
    writer.extend_from_slice(slice);
    assert(writer@ =~= old(writer)@ + zeros(count as nat));
}

/// The lengths of the two segments of the message's frame, padding included,
/// or `None` where the message does not fit a frame.
pub fn frame_lengths(encoded: &EncodedData) -> (res: Option<(usize, usize)>)
    ensures
        res is Some <==> fits_frame(encoded@),
        res matches Some((meta, data)) ==> {
            &&& meta == frame_metadata_len(encoded@)
            &&& data == frame_body_len(encoded@)
            &&& meta == PREFIX_LEN + encoded@.metadata.len() + padding(
                PREFIX_LEN as nat + encoded@.metadata.len(),
            )
            &&& data == encoded@.body.len() + padding(encoded@.body.len())
        },
{
    let flatbuf_size = encoded.ipc_message.len();
    let body_size = encoded.arrow_data.len();
    proof {
        lemma_aligned(PREFIX_LEN as nat + flatbuf_size as nat);
        lemma_aligned(body_size as nat);
    }
    if flatbuf_size > MAX_METADATA_LEN - PREFIX_LEN {
        return None;
    }
    let meta_padding = padding_for(PREFIX_LEN + flatbuf_size);
    if meta_padding > MAX_METADATA_LEN - PREFIX_LEN - flatbuf_size {
        return None;
    }
    let body_padding = padding_for(body_size);
    if body_padding > usize::MAX - body_size || (body_size + body_padding) as u64 > MAX_BODY_LEN {
        return None;
    }
    Some((PREFIX_LEN + flatbuf_size + meta_padding, body_size + body_padding))
}

/// Appends one framed message and returns the lengths of its two segments as
/// they were written, padding included: first the metadata segment with its
/// length prefix, then the body segment.
///
/// A message that does not fit a frame is rejected and nothing is appended.
pub fn write_message(writer: &mut Vec<u8>, encoded: &EncodedData) -> (res: Result<
    (usize, usize),
    Error,
>)
    ensures
        res is Ok <==> fits_frame(encoded@),
        res matches Ok((meta, data)) ==> {
            &&& meta == frame_metadata_len(encoded@)
            &&& data == frame_body_len(encoded@)
            &&& final(writer)@ == old(writer)@ + frame(encoded@)
        },
        res matches Err(e) ==> e is TooLarge && final(writer)@ == old(writer)@,
{
    let (aligned_size, body_len) = match frame_lengths(encoded) {
        Some(lengths) => lengths,
        None => {
            return Err(Error::TooLarge);
        },
    };
    let meta_padding = aligned_size - PREFIX_LEN - encoded.ipc_message.len();
    let body_padding = body_len - encoded.arrow_data.len();
    proof {
        lemma_aligned(PREFIX_LEN as nat + encoded@.metadata.len());
        lemma_aligned(encoded@.body.len());
    }
    write_continuation(writer, (aligned_size - PREFIX_LEN) as i32);
    writer.extend_from_slice(encoded.ipc_message.as_slice());
    write_padding(writer, meta_padding);
    assert(writer@ =~= old(writer)@ + frame_metadata(encoded@));
    writer.extend_from_slice(encoded.arrow_data.as_slice());
    write_padding(writer, body_padding);
    assert(writer@ =~= old(writer)@ + frame(encoded@));
    Ok((aligned_size, body_len))
}

} // verus!
