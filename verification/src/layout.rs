//! The layout of a file as a function of what was written to it.
//!
//! A file is the magic token and two zero bytes, the framed schema message,
//! the framed dictionary and record-batch messages in the order in which they
//! were written, the four zero bytes that close the stream, the footer, the
//! footer's length and the magic token once more.

use vstd::prelude::*;
use crate::bytes::{le_bytes, zeros};
use crate::footer::{Block, MAX_OFFSET};
use crate::framing::{
    continuation, fits_frame, frame, frame_body_len, frame_len, frame_metadata_len, lemma_frame_len,
    Message,
};

verus! {

/// What a framed message holds.
pub enum Kind {
    /// The content of a dictionary.
    Dictionary,
    /// A record batch.
    Record,
}

/// One message of a file.
pub struct Entry {
    /// What the message holds, and so which block table lists it.
    pub kind: Kind,
    /// The message.
    pub message: Message,
}

/// The token that opens and closes a file: the characters `ARROW1`.
pub open spec fn magic() -> Seq<u8> {
    seq![0x41u8, 0x52u8, 0x52u8, 0x4fu8, 0x57u8, 0x31u8]
}

/// The schema message as the framer takes it: these bytes as metadata and no
/// body.
pub open spec fn schema_frame(schema_message: Seq<u8>) -> Message {
    Message { metadata: schema_message, body: Seq::empty() }
}

/// The start of a file: magic token, two zero bytes, framed schema message.
pub open spec fn header(schema_message: Seq<u8>) -> Seq<u8> {
    magic() + zeros(2) + frame(schema_frame(schema_message))
}

/// The length of the start of a file.
pub open spec fn header_len(schema_message: Seq<u8>) -> nat {
    8 + frame_len(schema_frame(schema_message))
}

/// The end of a file: end-of-stream marker, footer, footer length, magic
/// token.
pub open spec fn trailer(footer: Seq<u8>) -> Seq<u8> {
    continuation(0) + footer + le_bytes(footer.len() as u32) + magic()
}

/// The entries of the given kind that carry the given messages.
pub open spec fn as_entries(kind: Kind, messages: Seq<Message>) -> Seq<Entry> {
    Seq::new(messages.len(), |i: int| Entry { kind, message: messages[i] })
}

/// The frames of the entries, one behind the other.
pub open spec fn frames(entries: Seq<Entry>) -> Seq<u8>
    decreases entries.len(),
{
    if entries.len() == 0 {
        Seq::empty()
    } else {
        frames(entries.drop_last()) + frame(entries.last().message)
    }
}

/// The total length of the frames of the entries.
pub open spec fn frames_len(entries: Seq<Entry>) -> nat
    decreases entries.len(),
{
    if entries.len() == 0 {
        0
    } else {
        frames_len(entries.drop_last()) + frame_len(entries.last().message)
    }
}

/// Whether every entry's message can be framed.
pub open spec fn all_fit(entries: Seq<Entry>) -> bool {
    forall|i: int| 0 <= i < entries.len() ==> fits_frame(#[trigger] entries[i].message)
}

/// The block of a message whose frame starts at `offset`.
pub open spec fn block_at(offset: nat, message: Message) -> Block {
    Block {
        offset: offset as u64,
        metadata_length: frame_metadata_len(message) as u32,
        body_length: frame_body_len(message) as u64,
    }
}

/// The block table of one kind for a file whose first message starts at
/// `base`: one block for each entry of that kind, in the order of the entries.
pub open spec fn blocks(base: nat, entries: Seq<Entry>, kind: Kind) -> Seq<Block>
    decreases entries.len(),
{
    if entries.len() == 0 {
        Seq::empty()
    } else {
        let before = blocks(base, entries.drop_last(), kind);
        if entries.last().kind == kind {
            before.push(block_at(base + frames_len(entries.drop_last()), entries.last().message))
        } else {
            before
        }
    }
}

/// The messages of one kind among the entries, in the order of the entries.
pub open spec fn messages_of(entries: Seq<Entry>, kind: Kind) -> Seq<Message>
    decreases entries.len(),
{
    if entries.len() == 0 {
        Seq::empty()
    } else {
        let before = messages_of(entries.drop_last(), kind);
        if entries.last().kind == kind {
            before.push(entries.last().message)
        } else {
            before
        }
    }
}

/// The frames of the entries are as long as `frames_len` says.
pub proof fn lemma_frames_len(entries: Seq<Entry>)
    ensures
        frames(entries).len() == frames_len(entries),
    decreases entries.len(),
{
    if entries.len() > 0 {
        lemma_frames_len(entries.drop_last());
        lemma_frame_len(entries.last().message);
    }
}

/// Appending an entry appends its frame, and, to the table of its kind, the
/// block that starts where the frames ended.
pub proof fn lemma_push(base: nat, entries: Seq<Entry>, entry: Entry, kind: Kind)
    ensures
        frames(entries.push(entry)) == frames(entries) + frame(entry.message),
        frames_len(entries.push(entry)) == frames_len(entries) + frame_len(entry.message),
        blocks(base, entries.push(entry), kind) == if entry.kind == kind {
            blocks(base, entries, kind).push(block_at(base + frames_len(entries), entry.message))
        } else {
            blocks(base, entries, kind)
        },
        messages_of(entries.push(entry), kind) == if entry.kind == kind {
            messages_of(entries, kind).push(entry.message)
        } else {
            messages_of(entries, kind)
        },
        all_fit(entries) && fits_frame(entry.message) ==> all_fit(entries.push(entry)),
{
    assert(entries.push(entry).drop_last() =~= entries);
    assert(entries.push(entry).last() == entry);
}

/// The frames of a prefix of the entries are no longer than the frames of all
/// of them.
pub proof fn lemma_frames_len_prefix(entries: Seq<Entry>, n: int)
    requires
        0 <= n <= entries.len(),
    ensures
        frames_len(entries.take(n)) <= frames_len(entries),
    decreases entries.len(),
{
    if n == entries.len() {
        assert(entries.take(n) =~= entries);
    } else {
        assert(entries.drop_last().take(n) =~= entries.take(n));
        lemma_frames_len_prefix(entries.drop_last(), n);
    }
}

/// A block table has one block for each message of its kind.
pub proof fn lemma_blocks_len(base: nat, entries: Seq<Entry>, kind: Kind)
    ensures
        blocks(base, entries, kind).len() == messages_of(entries, kind).len(),
        blocks(base, entries, kind).len() <= entries.len(),
    decreases entries.len(),
{
    if entries.len() > 0 {
        lemma_blocks_len(base, entries.drop_last(), kind);
    }
}

/// Every block of a table lies between the header and the end of the frames,
/// holds the lengths of its message's frame, and ends before the next block
/// of the table starts.
pub proof fn lemma_blocks_ordered(base: nat, entries: Seq<Entry>, kind: Kind)
    requires
        all_fit(entries),
        base + frames_len(entries) <= MAX_OFFSET,
    ensures
        blocks(base, entries, kind).len() == messages_of(entries, kind).len(),
        forall|i: int|
            #![trigger blocks(base, entries, kind)[i]]
            0 <= i < blocks(base, entries, kind).len() ==> {
                let block = blocks(base, entries, kind)[i];
                let message = messages_of(entries, kind)[i];
                &&& base <= block.offset
                &&& block.metadata_length == frame_metadata_len(message)
                &&& block.body_length == frame_body_len(message)
                &&& block.end() <= base + frames_len(entries)
            },
        forall|i: int, j: int|
            #![trigger blocks(base, entries, kind)[i], blocks(base, entries, kind)[j]]
            0 <= i < j < blocks(base, entries, kind).len() ==> blocks(base, entries, kind)[i].end()
                <= blocks(base, entries, kind)[j].offset,
    decreases entries.len(),
{
    lemma_blocks_len(base, entries, kind);
    if entries.len() > 0 {
        let rest = entries.drop_last();
        let last = entries.last();
        assert(all_fit(rest)) by {
            assert forall|i: int| 0 <= i < rest.len() implies fits_frame(
                #[trigger] rest[i].message,
            ) by {
                assert(rest[i] == entries[i]);
            }
        }
        assert(fits_frame(last.message)) by {
            assert(last == entries[entries.len() - 1]);
        }
        lemma_blocks_ordered(base, rest, kind);
        lemma_blocks_len(base, rest, kind);
    }
}

/// A block of the table of a prefix of the entries is a block of the table
/// of all of them, at the same index.
proof fn lemma_blocks_prefix(base: nat, entries: Seq<Entry>, kind: Kind, i: int)
    requires
        entries.len() > 0,
        0 <= i < blocks(base, entries.drop_last(), kind).len(),
    ensures
        i < blocks(base, entries, kind).len(),
        blocks(base, entries, kind)[i] == blocks(base, entries.drop_last(), kind)[i],
{
}

/// The part of `left + right` that lies within `left` is a part of `left`.
proof fn lemma_subrange_left(left: Seq<u8>, right: Seq<u8>, from: int, to: int)
    requires
        0 <= from <= to <= left.len(),
    ensures
        (left + right).subrange(from, to) == left.subrange(from, to),
{
    assert((left + right).subrange(from, to) =~= left.subrange(from, to));
}

/// The part of `left + right` behind `left` is `right`.
proof fn lemma_subrange_right(left: Seq<u8>, right: Seq<u8>)
    ensures
        (left + right).subrange(left.len() as int, (left.len() + right.len()) as int) == right,
{
    assert((left + right).subrange(left.len() as int, (left.len() + right.len()) as int) =~= right);
}

/// The bytes of the file at the place that a block names are the frame of
/// the block's message: the block tables give random access to the messages.
pub proof fn lemma_block_locates_frame(
    schema_message: Seq<u8>,
    entries: Seq<Entry>,
    kind: Kind,
    i: int,
)
    requires
        all_fit(entries),
        header_len(schema_message) + frames_len(entries) <= MAX_OFFSET,
        0 <= i < blocks(header_len(schema_message), entries, kind).len(),
    ensures
        i < messages_of(entries, kind).len(),
        ({
            let file = header(schema_message) + frames(entries);
            let block = blocks(header_len(schema_message), entries, kind)[i];
            &&& block.end() <= file.len()
            &&& file.subrange(block.offset as int, block.end()) == frame(
                messages_of(entries, kind)[i],
            )
        }),
    decreases entries.len(),
{
    let base = header_len(schema_message);
    let rest = entries.drop_last();
    let last = entries.last();
    let file = header(schema_message) + frames(entries);
    let shorter = header(schema_message) + frames(rest);
    let block = blocks(base, entries, kind)[i];
    lemma_blocks_len(base, entries, kind);
    lemma_blocks_len(base, rest, kind);
    assert(shorter.len() == base + frames_len(rest)) by {
        lemma_frames_len(rest);
        lemma_frame_len(schema_frame(schema_message));
    }
    assert(file == shorter + frame(last.message)) by {
        assert(file =~= shorter + frame(last.message));
    }
    assert(frame(last.message).len() == frame_len(last.message)) by {
        lemma_frame_len(last.message);
    }
    assert(fits_frame(last.message)) by {
        assert(last == entries[entries.len() - 1]);
    }
    if i == blocks(base, rest, kind).len() {
        assert(block == block_at(base + frames_len(rest), last.message));
        assert(messages_of(entries, kind)[i] == last.message);
        assert(block.offset == shorter.len());
        assert(block.end() == shorter.len() + frame(last.message).len());
        lemma_subrange_right(shorter, frame(last.message));
    } else {
        assert(all_fit(rest)) by {
            assert forall|k: int| 0 <= k < rest.len() implies fits_frame(
                #[trigger] rest[k].message,
            ) by {
                assert(rest[k] == entries[k]);
            }
        }
        lemma_block_locates_frame(schema_message, rest, kind, i);
        lemma_blocks_prefix(base, entries, kind, i);
        assert(messages_of(entries, kind)[i] == messages_of(rest, kind)[i]);
        lemma_subrange_left(shorter, frame(last.message), block.offset as int, block.end());
    }
}

/// The frames of any entries are a multiple of eight bytes long.
pub proof fn lemma_frames_len_aligned(entries: Seq<Entry>)
    ensures
        frames_len(entries) % 8 == 0,
    decreases entries.len(),
{
    if entries.len() > 0 {
        lemma_frames_len_aligned(entries.drop_last());
        lemma_frame_len(entries.last().message);
    }
}

/// Where the first message starts on an eight-byte boundary, every block of
/// a table does, and both of its lengths are multiples of eight.
pub proof fn lemma_blocks_aligned(base: nat, entries: Seq<Entry>, kind: Kind)
    requires
        base % 8 == 0,
        all_fit(entries),
        base + frames_len(entries) <= MAX_OFFSET,
    ensures
        forall|i: int|
            #![trigger blocks(base, entries, kind)[i]]
            0 <= i < blocks(base, entries, kind).len() ==> {
                let block = blocks(base, entries, kind)[i];
                &&& block.offset % 8 == 0
                &&& block.metadata_length % 8 == 0
                &&& block.body_length % 8 == 0
            },
    decreases entries.len(),
{
    if entries.len() > 0 {
        let rest = entries.drop_last();
        let last = entries.last();
        assert(all_fit(rest)) by {
            assert forall|i: int| 0 <= i < rest.len() implies fits_frame(
                #[trigger] rest[i].message,
            ) by {
                assert(rest[i] == entries[i]);
            }
        }
        assert(fits_frame(last.message)) by {
            assert(last == entries[entries.len() - 1]);
        }
        lemma_blocks_aligned(base, rest, kind);
        lemma_frames_len_aligned(rest);
        lemma_frame_len(last.message);
        let start = base + frames_len(rest);
        assert(start % 8 == 0);
        let block = block_at(start, last.message);
        assert(block.offset == start);
        assert(block.metadata_length == frame_metadata_len(last.message));
        assert(block.body_length == frame_body_len(last.message));
        assert forall|i: int| 0 <= i < blocks(base, entries, kind).len() implies ({
            let b = #[trigger] blocks(base, entries, kind)[i];
            b.offset % 8 == 0 && b.metadata_length % 8 == 0 && b.body_length % 8 == 0
        }) by {
            if i < blocks(base, rest, kind).len() {
                assert(blocks(base, entries, kind)[i] == blocks(base, rest, kind)[i]);
            } else {
                assert(blocks(base, entries, kind)[i] == block);
            }
        }
    }
}

/// The frames of two lists of entries, one behind the other, are as long as
/// both together, and all fit where the entries of each list fit.
pub proof fn lemma_frames_len_concat(first: Seq<Entry>, second: Seq<Entry>)
    ensures
        frames_len(first + second) == frames_len(first) + frames_len(second),
        all_fit(first + second) <==> all_fit(first) && all_fit(second),
    decreases second.len(),
{
    let both = first + second;
    if second.len() == 0 {
        assert(both =~= first);
    } else {
        assert(both.drop_last() =~= first + second.drop_last());
        assert(both.last() == second.last());
        lemma_frames_len_concat(first, second.drop_last());
    }
    if all_fit(both) {
        assert forall|i: int| 0 <= i < first.len() implies fits_frame(
            #[trigger] first[i].message,
        ) by {
            assert(first[i] == both[i]);
        }
        assert forall|i: int| 0 <= i < second.len() implies fits_frame(
            #[trigger] second[i].message,
        ) by {
            assert(second[i] == both[first.len() + i]);
        }
    }
    if all_fit(first) && all_fit(second) {
        assert forall|i: int| 0 <= i < both.len() implies fits_frame(
            #[trigger] both[i].message,
        ) by {
            if i < first.len() {
                assert(both[i] == first[i]);
            } else {
                assert(both[i] == second[i - first.len()]);
            }
        }
    }
}

/// Appends the magic token.
pub fn write_magic(writer: &mut Vec<u8>)
    ensures
        final(writer)@ == old(writer)@ + magic(),
{
    writer.push(0x41);
    writer.push(0x52);
    writer.push(0x52);
    writer.push(0x4f);
    writer.push(0x57);
    writer.push(0x31);
    assert(writer@ =~= old(writer)@ + magic());
}

} // verus!
