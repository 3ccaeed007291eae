//! What holds of every file that the writer produces.

use vstd::prelude::*;
use crate::batch::{track, track_column, BatchModel, Tracking};
use crate::bytes::{le_bytes, lemma_aligned, lemma_le_bytes_injective, zeros};
use crate::error::{Error, Operation};
use crate::framing::{
    continuation, fits_frame, frame, frame_body_len, frame_len, frame_metadata_len,
    lemma_frame_len, Message, PREFIX_LEN,
};
use crate::layout::{
    as_entries, blocks, frames, frames_len, header, lemma_block_locates_frame,
    lemma_blocks_aligned, lemma_blocks_ordered, lemma_frames_len, lemma_frames_len_aligned,
    lemma_frames_len_concat, lemma_push, magic, messages_of, schema_frame, Entry, Kind,
};
use crate::model::{added, FileModel, State};
use crate::schema::IpcField;

verus! {

/// Whether no column of the batch carries a dictionary.
pub open spec fn without_dictionaries(batch: BatchModel) -> bool {
    forall|i: int| 0 <= i < batch.dictionaries.len() ==> #[trigger] batch.dictionaries[i] is None
}

/// Columns without dictionaries leave the tracker as it is and emit nothing.
pub proof fn lemma_track_without_dictionaries(
    seen: Map<i64, Message>,
    cannot_replace: bool,
    columns: Seq<Option<Message>>,
    fields: Seq<IpcField>,
)
    requires
        forall|i: int| 0 <= i < columns.len() ==> #[trigger] columns[i] is None,
    ensures
        track(seen, cannot_replace, columns, fields) == (Tracking {
            seen,
            emitted: Seq::empty(),
            error: None,
        }),
    decreases columns.len(),
{
    if columns.len() > 0 {
        assert(columns.last() == columns[columns.len() - 1]);
        assert forall|i: int| 0 <= i < columns.drop_last().len() implies #[trigger] columns.drop_last()[i] is None by {
            assert(columns.drop_last()[i] == columns[i]);
        }
        lemma_track_without_dictionaries(seen, cannot_replace, columns.drop_last(), fields);
    }
}

/// Every operation keeps a valid state valid, and takes the writer forward
/// in its life or leaves it where it is: from not started to started, from
/// started to finished, never back and never past a stage. An operation that
/// fails out of sequence changes nothing.
pub proof fn lemma_steps_keep_valid(
    model: FileModel,
    schema_message: Seq<u8>,
    dictionaries: Seq<Message>,
    record: Message,
    batch: BatchModel,
    fields: Option<Seq<IpcField>>,
    footer: Seq<u8>,
)
    requires
        model.valid(),
    ensures
        model.start_with(schema_message).next.valid(),
        model.write_encoded(dictionaries, record).next.valid(),
        model.write(batch, fields).next.valid(),
        model.finish_with(footer).next.valid(),
        model.start_with(schema_message).next.state == if model.start_with(
            schema_message,
        ).result is Ok {
            State::Started
        } else {
            model.state
        },
        model.write_encoded(dictionaries, record).next.state == model.state,
        model.write(batch, fields).next.state == model.state,
        model.finish_with(footer).next.state == if model.finish_with(footer).result is Ok {
            State::Finished
        } else {
            model.state
        },
        model.state != State::NotStarted ==> model.start_with(schema_message).next == model,
        model.state != State::Started ==> {
            &&& model.write_encoded(dictionaries, record).next == model
            &&& model.write(batch, fields).next == model
            &&& model.finish_with(footer).next == model
        },
{
    let started = model.start_with(schema_message).next;
    if model.start_with(schema_message).result is Ok {
        lemma_frame_len(schema_frame(schema_message));
        assert(frames_len(started.entries) == 0);
    }
    let mapping = match fields {
        Some(mapping) => mapping,
        None => model.fields,
    };
    let tracking = track(model.seen, model.cannot_replace, batch.dictionaries, mapping);
    let after = FileModel { seen: tracking.seen, ..model };
    assert(after.valid());
}

/// An operation that is called out of sequence fails with the error that
/// names it and changes nothing: a start on a writer that was started, a
/// write or a finish on a writer that is not started or already finished,
/// custom metadata for a writer that was started.
pub proof fn lemma_out_of_sequence(
    model: FileModel,
    schema_message: Seq<u8>,
    dictionaries: Seq<Message>,
    record: Message,
    batch: BatchModel,
    fields: Option<Seq<IpcField>>,
    footer: Seq<u8>,
    metadata: Seq<(Seq<char>, Seq<char>)>,
)
    ensures
        model.state != State::NotStarted ==> {
            &&& model.start_with(schema_message) == model.rejected(
                Error::OutOfSequence(Operation::Start),
            )
            &&& model.start() == model.rejected(Error::OutOfSequence(Operation::Start))
            &&& model.set_metadata(metadata) == model.rejected(
                Error::OutOfSequence(Operation::SetMetadata),
            )
        },
        model.state != State::Started ==> {
            &&& model.write_encoded(dictionaries, record) == model.rejected(
                Error::OutOfSequence(Operation::Write),
            )
            &&& model.write(batch, fields) == model.rejected(
                Error::OutOfSequence(Operation::Write),
            )
            &&& model.finish_with(footer) == model.rejected(
                Error::OutOfSequence(Operation::Finish),
            )
            &&& model.finish() == model.rejected(Error::OutOfSequence(Operation::Finish))
        },
        model.rejected(Error::OutOfSequence(Operation::Start)).next == model,
        model.rejected(Error::OutOfSequence(Operation::Start)).next.file() == model.file(),
        model.rejected(Error::OutOfSequence(Operation::Start)).next.offset() == model.offset(),
{
}

/// The tracker never forgets: a dictionary id that was seen before a batch
/// is seen after it, whether tracking the batch ends in an error or not.
pub proof fn lemma_tracker_never_forgets(
    seen: Map<i64, Message>,
    cannot_replace: bool,
    columns: Seq<Option<Message>>,
    fields: Seq<IpcField>,
    id: i64,
)
    requires
        seen.contains_key(id),
    ensures
        track(seen, cannot_replace, columns, fields).seen.contains_key(id),
        cannot_replace ==> track(seen, cannot_replace, columns, fields).seen[id] == seen[id],
    decreases columns.len(),
{
    if columns.len() > 0 {
        lemma_tracker_never_forgets(seen, cannot_replace, columns.drop_last(), fields, id);
    }
}

/// A file to which batches without dictionaries were written has one record
/// block more for each batch and no dictionary block more.
pub proof fn lemma_batches_without_dictionaries(model: FileModel, batches: Seq<BatchModel>)
    requires
        forall|i: int| 0 <= i < batches.len() ==> without_dictionaries(#[trigger] batches[i]),
        model.write_all(batches).result is Ok,
    ensures
        model.write_all(batches).next.record_blocks().len() == model.record_blocks().len()
            + batches.len(),
        model.write_all(batches).next.dictionary_blocks() == model.dictionary_blocks(),
        model.write_all(batches).next.schema_message == model.schema_message,
        model.write_all(batches).next.schema == model.schema,
        model.write_all(batches).next.metadata == model.metadata,
        model.write_all(batches).next.fields == model.fields,
        batches.len() > 0 ==> model.state == State::Started,
        model.write_all(batches).next.state == model.state,
    decreases batches.len(),
{
    if batches.len() > 0 {
        let rest = batches.drop_last();
        let batch = batches.last();
        assert forall|i: int| 0 <= i < rest.len() implies without_dictionaries(
            #[trigger] rest[i],
        ) by {
            assert(rest[i] == batches[i]);
        }
        assert(without_dictionaries(batch)) by {
            assert(batch == batches[batches.len() - 1]);
        }
        lemma_batches_without_dictionaries(model, rest);
        let before = model.write_all(rest).next;
        lemma_track_without_dictionaries(
            before.seen,
            before.cannot_replace,
            batch.dictionaries,
            before.fields,
        );
        let entry = Entry { kind: Kind::Record, message: batch.record };
        assert(before.extended(Seq::empty(), batch.record) =~= before.entries.push(entry));
        lemma_push(before.base(), before.entries, entry, Kind::Record);
        lemma_push(before.base(), before.entries, entry, Kind::Dictionary);
    }
}

/// A file that is started, given `n` batches without dictionaries and
/// finished lists `n` record blocks and no dictionary block, and its footer
/// is encoded from just these tables.
pub proof fn lemma_file_without_dictionaries(start: FileModel, batches: Seq<BatchModel>)
    requires
        start.state == State::NotStarted,
        start.entries.len() == 0,
        forall|i: int| 0 <= i < batches.len() ==> without_dictionaries(#[trigger] batches[i]),
        start.start().result is Ok,
        start.start().next.write_all(batches).result is Ok,
        start.start().next.write_all(batches).next.finish().result is Ok,
    ensures
        ({
            let done = start.start().next.write_all(batches).next.finish().next;
            &&& done.state == State::Finished
            &&& done.record_blocks().len() == batches.len()
            &&& done.dictionary_blocks().len() == 0
        }),
{
    let started = start.start().next;
    lemma_batches_without_dictionaries(started, batches);
    assert(started.record_blocks() =~= Seq::empty());
    assert(started.dictionary_blocks() =~= Seq::empty());
}

/// In each of the two block tables of a valid file the offsets grow strictly,
/// and no block reaches into the next: a block ends at or before the offset
/// of every later block. Every block lies behind the header and ends at or
/// before the running offset.
pub proof fn lemma_blocks_do_not_overlap(model: FileModel, kind: Kind)
    requires
        model.valid(),
    ensures
        forall|i: int, j: int|
            #![trigger blocks(model.base(), model.entries, kind)[i], blocks(model.base(), model.entries, kind)[j]]
            0 <= i < j < blocks(model.base(), model.entries, kind).len() ==> {
                let first = blocks(model.base(), model.entries, kind)[i];
                let second = blocks(model.base(), model.entries, kind)[j];
                first.offset < second.offset && first.end() <= second.offset
            },
        forall|i: int|
            #![trigger blocks(model.base(), model.entries, kind)[i]]
            0 <= i < blocks(model.base(), model.entries, kind).len() ==> {
                let block = blocks(model.base(), model.entries, kind)[i];
                model.base() <= block.offset && block.end() <= model.offset()
            },
{
    let table = blocks(model.base(), model.entries, kind);
    if model.state == State::NotStarted {
        assert(table =~= Seq::empty());
    } else {
        lemma_blocks_ordered(model.base(), model.entries, kind);
        assert forall|i: int, j: int| 0 <= i < j < table.len() implies table[i].offset
            < table[j].offset && table[i].end() <= table[j].offset by {
            lemma_frame_len(messages_of(model.entries, kind)[i]);
        }
    }
}

/// Every message of a valid file starts on an eight-byte boundary, and both
/// segments of its frame are multiples of eight bytes long.
pub proof fn lemma_blocks_are_aligned(model: FileModel, kind: Kind)
    requires
        model.valid(),
    ensures
        model.offset() % 8 == 0,
        forall|i: int|
            #![trigger blocks(model.base(), model.entries, kind)[i]]
            0 <= i < blocks(model.base(), model.entries, kind).len() ==> {
                let block = blocks(model.base(), model.entries, kind)[i];
                &&& block.offset % 8 == 0
                &&& block.metadata_length % 8 == 0
                &&& block.body_length % 8 == 0
            },
{
    lemma_frame_len(schema_frame(model.schema_message));
    lemma_frames_len_aligned(model.entries);
    if model.state == State::NotStarted {
        assert(blocks(model.base(), model.entries, kind) =~= Seq::empty());
    } else {
        lemma_blocks_aligned(model.base(), model.entries, kind);
    }
}

/// The running offset never shrinks: every operation leaves it where it is
/// or moves it forward, by the header at the start and by the frames of the
/// messages at a write.
pub proof fn lemma_offset_grows(
    model: FileModel,
    schema_message: Seq<u8>,
    dictionaries: Seq<Message>,
    record: Message,
    batch: BatchModel,
    fields: Option<Seq<IpcField>>,
    footer: Seq<u8>,
)
    ensures
        model.offset() <= model.start_with(schema_message).next.offset(),
        model.write_encoded(dictionaries, record).result is Ok ==> model.write_encoded(
            dictionaries,
            record,
        ).next.offset() == model.offset() + frames_len(added(dictionaries, record)),
        model.offset() <= model.write_encoded(dictionaries, record).next.offset(),
        model.offset() <= model.write(batch, fields).next.offset(),
        model.finish_with(footer).next.offset() == model.offset(),
{
    assert(model.extended(dictionaries, record) =~= model.entries + added(dictionaries, record));
    lemma_frames_len_concat(model.entries, added(dictionaries, record));
    let mapping = match fields {
        Some(mapping) => mapping,
        None => model.fields,
    };
    let tracking = track(model.seen, model.cannot_replace, batch.dictionaries, mapping);
    let after = FileModel { seen: tracking.seen, ..model };
    assert(after.extended(tracking.emitted, batch.record) =~= after.entries + added(
        tracking.emitted,
        batch.record,
    ));
    lemma_frames_len_concat(after.entries, added(tracking.emitted, batch.record));
    if model.state == State::NotStarted && model.start_with(schema_message).result is Ok {
        assert(model.offset() == 0);
    }
}

/// The block tables give random access: the bytes of the file at the place
/// that the `i`-th block of a table names are the frame of the `i`-th message
/// of the table's kind, and the block holds the lengths of that frame's two
/// segments.
pub proof fn lemma_block_locates_message(model: FileModel, kind: Kind, i: int)
    requires
        model.valid(),
        model.state != State::NotStarted,
        0 <= i < blocks(model.base(), model.entries, kind).len(),
    ensures
        i < messages_of(model.entries, kind).len(),
        ({
            let block = blocks(model.base(), model.entries, kind)[i];
            let message = messages_of(model.entries, kind)[i];
            &&& block.end() <= model.file().len()
            &&& model.file().subrange(block.offset as int, block.end()) == frame(message)
            &&& block.metadata_length == frame_metadata_len(message)
            &&& block.body_length == frame_body_len(message)
        }),
{
    lemma_block_locates_frame(model.schema_message, model.entries, kind, i);
    lemma_blocks_ordered(model.base(), model.entries, kind);
    let block = blocks(model.base(), model.entries, kind)[i];
    let open = header(model.schema_message) + frames(model.entries);
    if model.state == State::Finished {
        assert(model.file().subrange(block.offset as int, block.end()) =~= open.subrange(
            block.offset as int,
            block.end(),
        ));
    }
}

/// The length of a finished file is the sum of its parts: eight bytes of
/// magic token and padding, the framed schema message, the framed dictionary
/// and record messages, four bytes of end-of-stream marker, the footer, four
/// bytes of footer length and six bytes of magic token.
pub proof fn lemma_file_len(model: FileModel)
    requires
        model.state == State::Finished,
    ensures
        model.file().len() == 8 + frame_len(schema_frame(model.schema_message)) + frames_len(
            model.entries,
        ) + 4 + model.footer.len() + 4 + 6,
        model.file().len() == model.offset() + 4 + model.footer.len() + 4 + 6,
{
    lemma_frame_len(schema_frame(model.schema_message));
    lemma_frames_len(model.entries);
}

/// A file under construction is as long as the running offset says.
pub proof fn lemma_offset_is_file_len(model: FileModel)
    requires
        model.state != State::Finished,
    ensures
        model.file().len() == model.offset(),
{
    lemma_frame_len(schema_frame(model.schema_message));
    lemma_frames_len(model.entries);
}

/// Whether the batch has a dictionary in the column `column` and in no other.
pub open spec fn single_dictionary(batch: BatchModel, column: int, content: Message) -> bool {
    &&& 0 <= column < batch.dictionaries.len()
    &&& batch.dictionaries[column] == Some(content)
    &&& forall|i: int|
        0 <= i < batch.dictionaries.len() && i != column ==> #[trigger] batch.dictionaries[i]
            is None
}

/// Tracking columns of which one alone carries a dictionary is tracking that
/// column.
pub proof fn lemma_track_single(
    seen: Map<i64, Message>,
    cannot_replace: bool,
    columns: Seq<Option<Message>>,
    fields: Seq<IpcField>,
    column: int,
)
    requires
        0 <= column < columns.len(),
        forall|i: int| 0 <= i < columns.len() && i != column ==> #[trigger] columns[i] is None,
    ensures
        track(seen, cannot_replace, columns, fields) == track_column(
            Tracking { seen, emitted: Seq::empty(), error: None },
            cannot_replace,
            column,
            columns[column],
            fields,
        ),
    decreases columns.len(),
{
    let rest = columns.drop_last();
    assert(columns.last() == columns[columns.len() - 1]);
    assert forall|i: int| 0 <= i < rest.len() && i != column implies #[trigger] rest[i] is None by {
        assert(rest[i] == columns[i]);
    }
    if column == columns.len() - 1 {
        lemma_track_without_dictionaries(seen, cannot_replace, rest, fields);
    } else {
        assert(rest[column] == columns[column]);
        lemma_track_single(seen, cannot_replace, rest, fields, column);
    }
}

/// A dictionary is written once: where two batches that follow each other
/// carry, in one column, a dictionary of identical content under an id that
/// was not written before, the first write emits the dictionary and the
/// second emits nothing. After both writes the table of the dictionaries has
/// one block more, and the table of the record batches two.
pub proof fn lemma_dictionary_is_written_once(
    model: FileModel,
    first: BatchModel,
    second: BatchModel,
    column: int,
    content: Message,
    id: i64,
)
    requires
        single_dictionary(first, column, content),
        single_dictionary(second, column, content),
        column < model.fields.len(),
        model.fields[column].dictionary_id == Some(id),
        !model.seen.contains_key(id),
        model.write(first, None).result is Ok,
        model.write(first, None).next.write(second, None).result is Ok,
    ensures
        model.emitted(first, None) == seq![content],
        model.write(first, None).next.emitted(second, None) == Seq::<Message>::empty(),
        ({
            let once = model.write(first, None).next;
            let twice = once.write(second, None).next;
            &&& once.dictionary_blocks().len() == model.dictionary_blocks().len() + 1
            &&& twice.dictionary_blocks() == once.dictionary_blocks()
            &&& twice.record_blocks().len() == model.record_blocks().len() + 2
            &&& twice.seen[id] == content
        }),
{
    lemma_track_single(model.seen, model.cannot_replace, first.dictionaries, model.fields, column);
    let once = model.write(first, None).next;
    assert(model.emitted(first, None) =~= seq![content]);
    assert(once.seen == model.seen.insert(id, content));
    lemma_track_single(once.seen, once.cannot_replace, second.dictionaries, once.fields, column);
    lemma_write_adds_blocks(model, seq![content], first.record);
    lemma_write_adds_blocks(once, Seq::empty(), second.record);
}

/// A write that emits the given dictionaries and the record message adds one
/// dictionary block for each dictionary and one record block.
pub proof fn lemma_write_adds_blocks(model: FileModel, dictionaries: Seq<Message>, record: Message)
    requires
        model.write_encoded(dictionaries, record).result is Ok,
    ensures
        ({
            let next = model.write_encoded(dictionaries, record).next;
            &&& next.dictionary_blocks().len() == model.dictionary_blocks().len()
                + dictionaries.len()
            &&& next.record_blocks().len() == model.record_blocks().len() + 1
            &&& dictionaries.len() == 0 ==> next.dictionary_blocks() == model.dictionary_blocks()
        }),
{
    let base = model.base();
    let listed = as_entries(Kind::Dictionary, dictionaries);
    let last = Entry { kind: Kind::Record, message: record };
    assert(model.extended(dictionaries, record) =~= (model.entries + listed).push(last));
    lemma_push(base, model.entries + listed, last, Kind::Dictionary);
    lemma_push(base, model.entries + listed, last, Kind::Record);
    lemma_listed(base, model.entries, dictionaries);
    if dictionaries.len() == 0 {
        assert(model.entries + listed =~= model.entries);
    }
}

/// Dictionary entries that are added to a file add one dictionary block each
/// and no record block.
proof fn lemma_listed(base: nat, entries: Seq<Entry>, dictionaries: Seq<Message>)
    ensures
        blocks(base, entries + as_entries(Kind::Dictionary, dictionaries), Kind::Dictionary).len()
            == blocks(base, entries, Kind::Dictionary).len() + dictionaries.len(),
        blocks(base, entries + as_entries(Kind::Dictionary, dictionaries), Kind::Record) == blocks(
            base,
            entries,
            Kind::Record,
        ),
    decreases dictionaries.len(),
{
    let listed = as_entries(Kind::Dictionary, dictionaries);
    if dictionaries.len() == 0 {
        assert(entries + listed =~= entries);
    } else {
        let shorter = as_entries(Kind::Dictionary, dictionaries.drop_last());
        assert(listed.drop_last() =~= shorter);
        assert(entries + listed =~= (entries + shorter).push(listed.last()));
        lemma_listed(base, entries, dictionaries.drop_last());
        lemma_push(base, entries + shorter, listed.last(), Kind::Dictionary);
        lemma_push(base, entries + shorter, listed.last(), Kind::Record);
    }
}

/// A frame can be read back: its first four bytes are the length of the
/// metadata and its padding, the metadata follows, and the body starts where
/// the metadata segment ends. What lies behind the metadata and behind the
/// body is zero bytes up to the next multiple of eight.
pub proof fn lemma_frame_reads_back(message: Message)
    requires
        fits_frame(message),
    ensures
        ({
            let bytes = frame(message);
            let metadata_end = 4 + message.metadata.len() as int;
            let body_start = frame_metadata_len(message) as int;
            let body_end = body_start + message.body.len() as int;
            let end = body_start + frame_body_len(message) as int;
            &&& bytes.len() == end
            &&& bytes.subrange(0, 4) == le_bytes((body_start - 4) as u32)
            &&& bytes.subrange(4, metadata_end) == message.metadata
            &&& bytes.subrange(metadata_end, body_start) == zeros(
                (body_start - metadata_end) as nat,
            )
            &&& bytes.subrange(body_start, body_end) == message.body
            &&& bytes.subrange(body_end, end) == zeros((end - body_end) as nat)
        }),
{
    lemma_frame_len(message);
    lemma_aligned(PREFIX_LEN as nat + message.metadata.len());
    lemma_aligned(message.body.len());
    let bytes = frame(message);
    let metadata_end = 4 + message.metadata.len() as int;
    let body_start = frame_metadata_len(message) as int;
    let body_end = body_start + message.body.len() as int;
    let end = body_start + frame_body_len(message) as int;
    assert(bytes.subrange(0, 4) =~= le_bytes((body_start - 4) as u32));
    assert(bytes.subrange(4, metadata_end) =~= message.metadata);
    assert(bytes.subrange(metadata_end, body_start) =~= zeros((body_start - metadata_end) as nat));
    assert(bytes.subrange(body_start, body_end) =~= message.body);
    assert(bytes.subrange(body_end, end) =~= zeros((end - body_end) as nat));
}

/// A finished file can be read back from both ends. It starts with the magic
/// token, two zero bytes and the framed schema message. It ends with the
/// magic token; the four bytes before it are the length of the footer, the
/// footer lies before them, and before the footer lie the four zero bytes
/// that close the stream of messages, at the running offset.
pub proof fn lemma_file_reads_back(model: FileModel)
    requires
        model.state == State::Finished,
        model.valid(),
    ensures
        ({
            let file = model.file();
            let end = file.len() as int;
            let footer_len = model.footer.len() as int;
            let offset = model.offset() as int;
            &&& end == offset + 4 + footer_len + 4 + 6
            &&& file.subrange(0, 6) == magic()
            &&& file.subrange(6, 8) == zeros(2)
            &&& file.subrange(8, model.base() as int) == frame(schema_frame(model.schema_message))
            &&& file.subrange(model.base() as int, offset) == frames(model.entries)
            &&& file.subrange(offset, offset + 4) == continuation(0)
            &&& file.subrange(end - 10 - footer_len, end - 10) == model.footer
            &&& file.subrange(end - 10, end - 6) == le_bytes(model.footer.len() as u32)
            &&& file.subrange(end - 6, end) == magic()
        }),
{
    lemma_file_len(model);
    lemma_frame_len(schema_frame(model.schema_message));
    lemma_frames_len(model.entries);
    let file = model.file();
    let end = file.len() as int;
    let footer_len = model.footer.len() as int;
    assert(file.subrange(0, 6) =~= magic());
    assert(file.subrange(6, 8) =~= zeros(2));
    assert(file.subrange(8, model.base() as int) =~= frame(schema_frame(model.schema_message)));
    let offset = model.offset() as int;
    assert(file.subrange(model.base() as int, offset) =~= frames(model.entries));
    assert(file.subrange(offset, offset + 4) =~= continuation(0));
    assert(file.subrange(end - 10 - footer_len, end - 10) =~= model.footer);
    assert(file.subrange(end - 10, end - 6) =~= le_bytes(model.footer.len() as u32));
    assert(file.subrange(end - 6, end) =~= magic());
}

/// The length of the footer can be read back from the four bytes before the
/// closing magic token: no other length has this encoding.
pub proof fn lemma_footer_length_reads_back(model: FileModel, length: u32)
    requires
        model.state == State::Finished,
        model.valid(),
        le_bytes(length) == model.file().subrange(
            model.file().len() - 10,
            model.file().len() - 6,
        ),
    ensures
        length == model.footer.len(),
{
    lemma_file_reads_back(model);
    lemma_le_bytes_injective(length, model.footer.len() as u32);
}

} // verus!
