//! The file writer: it owns the bytes of the file under construction, the
//! running offset, the two block tables and the dictionary tracker, and takes
//! the file through its life from not started over started to finished.

use vstd::prelude::*;
use vstd::array::array_as_slice;
use crate::batch::{encode_chunk_amortized, messages_view, BatchModel, EncodedBatch};
use crate::bytes::{to_le_bytes, zeros};
use crate::error::{Error, Operation};
use crate::footer::{Block, MAX_OFFSET};
use crate::framing::{
    fits_frame, frame, frame_body_len, frame_len, frame_lengths, frame_metadata_len,
    write_continuation, write_message, EncodedData, Message,
};
use crate::layout::{
    all_fit, as_entries, frames, frames_len, header, lemma_frames_len_concat,
    lemma_frames_len_prefix, lemma_push, magic, schema_frame, trailer, write_magic, Entry, Kind,
};
use crate::model::{added, FileModel, State, MAX_FOOTER_LEN};
use crate::schema::{
    default_fields, default_ipc_fields, encode_footer, metadata_view, pairs,
    schema_message_bytes, schema_to_bytes, schema_with_metadata, with_metadata, IpcField,
    KeyValue,
};
use crate::tracker::DictionaryTracker;

verus! {

/// What a writer remembers of its past for the sake of its contracts.
struct Log {
    /// The bytes that were in the buffer when the writer was made.
    origin: Seq<u8>,
    /// The bytes that `take_written` has handed out.
    flushed: Seq<u8>,
    /// The bytes of the schema message, once the writer is started.
    schema_message: Seq<u8>,
    /// The messages written so far, oldest first.
    entries: Seq<Entry>,
    /// The bytes of the footer, once the writer is finished.
    footer: Seq<u8>,
}

/// Writes one file. The file's bytes are appended to a buffer that the
/// caller supplies and takes back.
pub struct FileWriter {
    /// The buffer that the file is appended to.
    writer: Vec<u8>,
    /// The schema of the file.
    schema: arrow_format::ipc::Schema,
    /// The field mapping that `write` uses where it is given none.
    ipc_fields: Vec<IpcField>,
    /// The running offset: where the next message starts.
    block_offsets: u64,
    /// The blocks of the dictionaries written so far.
    dictionary_blocks: Vec<Block>,
    /// The blocks of the record batches written so far.
    record_blocks: Vec<Block>,
    /// Where the writer stands in its life.
    state: State,
    /// Which dictionaries were written, and with what content.
    dictionary_tracker: DictionaryTracker,
    /// The scratch message whose buffers are reused between writes.
    encoded_message: EncodedData,
    /// The custom metadata for the footer; never an empty list.
    custom_schema_metadata: Option<Vec<KeyValue>>,
    /// The past of the writer.
    log: Ghost<Log>,
}

impl View for FileWriter {
    type V = FileModel;

    closed spec fn view(&self) -> FileModel {
        FileModel {
            state: self.state,
            schema: self.schema,
            fields: self.ipc_fields@,
            metadata: metadata_view(self.custom_schema_metadata),
            schema_message: self.log@.schema_message,
            entries: self.log@.entries,
            footer: self.log@.footer,
            seen: self.dictionary_tracker.seen(),
            cannot_replace: self.dictionary_tracker.cannot_replace,
        }
    }
}

impl FileWriter {
    /// The bytes that were in the buffer when the writer was made.
    pub closed spec fn origin(&self) -> Seq<u8> {
        self.log@.origin
    }

    /// The bytes that `take_written` has handed out so far.
    pub closed spec fn flushed(&self) -> Seq<u8> {
        self.log@.flushed
    }

    /// The bytes in the buffer.
    pub closed spec fn buffered(&self) -> Seq<u8> {
        self.writer@
    }

    /// The scratch message.
    pub closed spec fn scratch(&self) -> EncodedData {
        self.encoded_message
    }

    /// The invariant of a writer: the bytes handed out and the bytes in the
    /// buffer are, behind what the buffer first held, the file so far; the
    /// running offset and the block tables are those of the messages written.
    pub closed spec fn wf(&self) -> bool {
        &&& self.log@.flushed + self.writer@ == self.log@.origin + self@.file()
        &&& self.block_offsets == self@.offset()
        &&& self.block_offsets <= MAX_OFFSET
        &&& self.dictionary_blocks@ == self@.dictionary_blocks()
        &&& self.record_blocks@ == self@.record_blocks()
        &&& all_fit(self.log@.entries)
        &&& self.state == State::NotStarted ==> self.log@.entries.len() == 0
            && self.log@.schema_message.len() == 0
        &&& self.state != State::NotStarted ==> fits_frame(schema_frame(self.log@.schema_message))
        &&& self.state == State::Finished ==> self.log@.footer.len() <= MAX_FOOTER_LEN
        &&& self.state != State::Finished ==> self.log@.footer.len() == 0
        &&& self.custom_schema_metadata matches Some(entries) ==> entries@.len() > 0
    }

    /// The state of a writer that was just made for the given schema and
    /// field mapping.
    pub open spec fn initial(
        schema: arrow_format::ipc::Schema,
        fields: Seq<IpcField>,
    ) -> FileModel {
        FileModel {
            state: State::NotStarted,
            schema,
            fields,
            metadata: None,
            schema_message: Seq::empty(),
            entries: Seq::empty(),
            footer: Seq::empty(),
            seen: Map::empty(),
            cannot_replace: true,
        }
    }

    /// This writer with another scratch message.
    pub closed spec fn with_scratch(self, scratch: EncodedData) -> FileWriter {
        FileWriter { encoded_message: scratch, ..self }
    }

    /// The scratch message is transparent: whatever scratch message a writer
    /// holds, its state, its invariant and its bytes are the same, and so are
    /// the result, the next state and the emitted messages of every
    /// operation.
    pub proof fn lemma_scratch_is_transparent(
        self,
        scratch: EncodedData,
        chunk: BatchModel,
        fields: Option<Seq<IpcField>>,
        dictionaries: Seq<Message>,
        record: Message,
    )
        ensures
            self.with_scratch(scratch).scratch() == scratch,
            self.with_scratch(scratch)@ == self@,
            self.with_scratch(scratch).wf() == self.wf(),
            self.with_scratch(scratch).buffered() == self.buffered(),
            self.with_scratch(scratch).flushed() == self.flushed(),
            self.with_scratch(scratch).origin() == self.origin(),
            self.with_scratch(scratch)@.start() == self@.start(),
            self.with_scratch(scratch)@.write(chunk, fields) == self@.write(chunk, fields),
            self.with_scratch(scratch)@.emitted(chunk, fields) == self@.emitted(chunk, fields),
            self.with_scratch(scratch)@.write_encoded(dictionaries, record)
                == self@.write_encoded(dictionaries, record),
            self.with_scratch(scratch)@.finish() == self@.finish(),
    {
    }

    /// A well-formed writer is in a valid state.
    pub proof fn lemma_valid(&self)
        requires
            self.wf(),
        ensures
            self@.valid(),
    {
    }

    /// What the invariant says of the bytes: those handed out and those in
    /// the buffer are together what the buffer first held and the file so far.
    pub proof fn lemma_written(&self)
        requires
            self.wf(),
        ensures
            self.flushed() + self.buffered() == self.origin() + self@.file(),
    {
    }

    /// Creates a writer that appends a file for `schema` to `writer`. Where no
    /// field mapping is given, the one that the schema holds is used. Nothing
    /// is written yet.
    pub fn new(
        writer: Vec<u8>,
        schema: arrow_format::ipc::Schema,
        ipc_fields: Option<Vec<IpcField>>,
    ) -> (slf: FileWriter)
        ensures
            slf.wf(),
            slf@ == FileWriter::initial(
                schema,
                match ipc_fields {
                    Some(fields) => fields@,
                    None => default_fields(schema),
                },
            ),
            slf.origin() == writer@,
            slf.flushed() == Seq::<u8>::empty(),
            slf.buffered() == writer@,
            slf.scratch()@.metadata.len() == 0,
            slf.scratch()@.body.len() == 0,
    {
        let ipc_fields = match ipc_fields {
            Some(ipc_fields) => ipc_fields,
            None => default_ipc_fields(&schema),
        };
        let ghost log = Log {
            origin: writer@,
            flushed: Seq::empty(),
            schema_message: Seq::empty(),
            entries: Seq::empty(),
            footer: Seq::empty(),
        };
        let slf = FileWriter {
            writer,
            schema,
            ipc_fields,
            block_offsets: 0,
            dictionary_blocks: Vec::new(),
            record_blocks: Vec::new(),
            state: State::NotStarted,
            dictionary_tracker: DictionaryTracker::new(true),
            encoded_message: EncodedData::default(),
            custom_schema_metadata: None,
            log: Ghost(log),
        };
        assert(slf.log@.flushed + slf.writer@ =~= slf.log@.origin + slf@.file());
        slf
    }

    /// Gives back the buffer with the bytes that were appended to it and not
    /// yet taken.
    pub fn into_inner(self) -> (writer: Vec<u8>)
        ensures
            writer@ == self.buffered(),
    {
        self.writer
    }

    /// Takes the bytes that are in the buffer and leaves it empty. A caller
    /// that sends the file on as it grows calls this after each operation.
    pub fn take_written(&mut self) -> (bytes: Vec<u8>)
        requires
            old(self).wf(),
        ensures
            final(self).wf(),
            final(self)@ == old(self)@,
            bytes@ == old(self).buffered(),
            final(self).buffered() == Seq::<u8>::empty(),
            final(self).flushed() == old(self).flushed() + bytes@,
            final(self).origin() == old(self).origin(),
            final(self).scratch() == old(self).scratch(),
    {
        let mut bytes: Vec<u8> = Vec::new();
        std::mem::swap(&mut self.writer, &mut bytes);
        proof {
            self.log@ = Log { flushed: self.log@.flushed + bytes@, ..self.log@ };
            assert(self.log@.flushed + self.writer@ =~= old(self).log@.flushed + old(
                self,
            ).writer@);
        }
        bytes
    }

    /// Takes the scratch message out of the writer, so that its buffers can
    /// be given to another writer, and leaves an empty one. The file is not
    /// affected.
    pub fn get_scratches(&mut self) -> (scratches: EncodedData)
        requires
            old(self).wf(),
        ensures
            final(self).wf(),
            final(self)@ == old(self)@,
            scratches == old(self).scratch(),
            final(self).scratch()@.metadata.len() == 0,
            final(self).scratch()@.body.len() == 0,
            final(self).buffered() == old(self).buffered(),
            final(self).flushed() == old(self).flushed(),
            final(self).origin() == old(self).origin(),
    {
        let mut scratches = EncodedData::default();
        std::mem::swap(&mut self.encoded_message, &mut scratches);
        scratches
    }

    /// Installs a scratch message whose buffers the writer reuses. The file
    /// is not affected.
    pub fn set_scratches(&mut self, scratches: EncodedData)
        requires
            old(self).wf(),
        ensures
            final(self).wf(),
            *final(self) == old(self).with_scratch(scratches),
            final(self)@ == old(self)@,
            final(self).scratch() == scratches,
            final(self).buffered() == old(self).buffered(),
            final(self).flushed() == old(self).flushed(),
            final(self).origin() == old(self).origin(),
    {
        self.encoded_message = scratches;
    }

    /// Where the writer stands in its life.
    pub fn state(&self) -> (state: State)
        ensures
            state == self@.state,
    {
        self.state
    }

    /// The running offset: the number of bytes of the file up to the end of
    /// the last message.
    pub fn block_offsets(&self) -> (offset: u64)
        requires
            self.wf(),
        ensures
            offset == self@.offset(),
    {
        self.block_offsets
    }

    /// The blocks of the dictionaries written so far, in the order in which
    /// they were written.
    pub fn dictionary_blocks(&self) -> (table: &Vec<Block>)
        requires
            self.wf(),
        ensures
            table@ == self@.dictionary_blocks(),
    {
        &self.dictionary_blocks
    }

    /// The blocks of the record batches written so far, in the order in
    /// which they were written.
    pub fn record_blocks(&self) -> (table: &Vec<Block>)
        requires
            self.wf(),
        ensures
            table@ == self@.record_blocks(),
    {
        &self.record_blocks
    }

    /// Attaches custom metadata to the schema in the footer. Only a writer
    /// that is not started takes it; an empty list attaches none.
    pub fn set_custom_schema_metadata(&mut self, custom_metadata: Vec<KeyValue>) -> (res: Result<
        (),
        Error,
    >)
        requires
            old(self).wf(),
        ensures
            final(self).wf(),
            final(self)@ == old(self)@.set_metadata(pairs(custom_metadata@)).next,
            res == old(self)@.set_metadata(pairs(custom_metadata@)).result,
            final(self).buffered() == old(self).buffered(),
            final(self).flushed() == old(self).flushed(),
            final(self).origin() == old(self).origin(),
            final(self).scratch() == old(self).scratch(),
    {
        if self.state != State::NotStarted {
            return Err(Error::OutOfSequence(Operation::SetMetadata));
        }
        if custom_metadata.len() == 0 {
            self.custom_schema_metadata = None;
        } else {
            self.custom_schema_metadata = Some(custom_metadata);
        }
        Ok(())
    }
}

impl FileWriter {
    /// Writes the header of the file with the given bytes as the schema
    /// message: the magic token, two zero bytes that bring the file to an
    /// eight-byte boundary, and the framed schema message. Fails, with nothing
    /// written, on a writer that was started before, and where the schema
    /// message is too long for a frame.
    pub fn start_with(&mut self, schema_message: Vec<u8>) -> (res: Result<(), Error>)
        requires
            old(self).wf(),
        ensures
            final(self).wf(),
            final(self)@ == old(self)@.start_with(schema_message@).next,
            res == old(self)@.start_with(schema_message@).result,
            res is Ok ==> final(self).buffered() == old(self).buffered() + header(
                schema_message@,
            ),
            res is Err ==> final(self).buffered() == old(self).buffered(),
            final(self).flushed() == old(self).flushed(),
            final(self).origin() == old(self).origin(),
            final(self).scratch() == old(self).scratch(),
    {
        if self.state != State::NotStarted {
            return Err(Error::OutOfSequence(Operation::Start));
        }
        let encoded_message = EncodedData { ipc_message: schema_message, arrow_data: Vec::new() };
        assert(encoded_message@ == schema_frame(schema_message@));
        let (meta, data) = match frame_lengths(&encoded_message) {
            Some(lengths) => lengths,
            None => {
                return Err(Error::TooLarge);
            },
        };
        // The magic token and two bytes that bring the file to an eight-byte boundary.
        write_magic(&mut self.writer);
        self.writer.push(0);
        self.writer.push(0);
        let ghost padded = self.writer@;
        assert(padded =~= old(self).writer@ + magic() + zeros(2));
        let _ = write_message(&mut self.writer, &encoded_message);
        self.block_offsets = (meta + data + 8) as u64;
        self.state = State::Started;
        proof {
            self.log@ = Log { schema_message: schema_message@, ..self.log@ };
            assert(self.log@.flushed + self.writer@ =~= self.log@.origin + self@.file());
        }
        Ok(())
    }

    /// Writes the header of the file: the magic token, two zero bytes, and
    /// the schema message, which is encoded without custom metadata, since
    /// the footer carries that.
    pub fn start(&mut self) -> (res: Result<(), Error>)
        requires
            old(self).wf(),
        ensures
            final(self).wf(),
            final(self)@ == old(self)@.start().next,
            res == old(self)@.start().result,
            res is Ok ==> final(self).buffered() == old(self).buffered() + header(
                schema_message_bytes(schema_with_metadata(old(self)@.schema, None)),
            ),
            res is Err ==> final(self).buffered() == old(self).buffered(),
            final(self).flushed() == old(self).flushed(),
            final(self).origin() == old(self).origin(),
            final(self).scratch() == old(self).scratch(),
    {
        if self.state != State::NotStarted {
            return Err(Error::OutOfSequence(Operation::Start));
        }
        // No need to pass metadata here, as it is written to the footer in `finish`
        let schema_message = schema_to_bytes(&with_metadata(&self.schema, &None));
        self.start_with(schema_message)
    }

    /// Creates a writer and writes the header of the file.
    pub fn try_new(
        writer: Vec<u8>,
        schema: arrow_format::ipc::Schema,
        ipc_fields: Option<Vec<IpcField>>,
    ) -> (res: Result<FileWriter, Error>)
        ensures
            ({
                let step = FileWriter::initial(
                    schema,
                    match ipc_fields {
                        Some(fields) => fields@,
                        None => default_fields(schema),
                    },
                ).start();
                match res {
                    Ok(slf) => {
                        &&& step.result is Ok
                        &&& slf.wf()
                        &&& slf@ == step.next
                        &&& slf.origin() == writer@
                        &&& slf.flushed() == Seq::<u8>::empty()
                        &&& slf.buffered() == writer@ + header(step.next.schema_message)
                        &&& slf.scratch()@.metadata.len() == 0
                        &&& slf.scratch()@.body.len() == 0
                    },
                    Err(error) => step.result == Err::<(), Error>(error),
                }
            }),
    {
        let mut slf = FileWriter::new(writer, schema, ipc_fields);
        match slf.start() {
            Ok(()) => Ok(slf),
            Err(error) => Err(error),
        }
    }
}

impl FileWriter {
    /// Appends one framed message, lists it in the block table of its kind
    /// and advances the running offset behind it.
    fn append_message(&mut self, kind: Kind, encoded: &EncodedData)
        requires
            old(self).wf(),
            old(self)@.state == State::Started,
            fits_frame(encoded@),
            old(self)@.offset() + frame_len(encoded@) <= MAX_OFFSET,
        ensures
            final(self).wf(),
            final(self)@ == (FileModel {
                entries: old(self)@.entries.push(Entry { kind, message: encoded@ }),
                ..old(self)@
            }),
            final(self).buffered() == old(self).buffered() + frame(encoded@),
            final(self).flushed() == old(self).flushed(),
            final(self).origin() == old(self).origin(),
            final(self).scratch() == old(self).scratch(),
    {
        let ghost entry = Entry { kind, message: encoded@ };
        match write_message(&mut self.writer, encoded) {
            Ok((meta, data)) => {
                let block = Block {
                    offset: self.block_offsets,
                    metadata_length: meta as u32,
                    body_length: data as u64,
                };
                match kind {
                    Kind::Dictionary => {
                        self.dictionary_blocks.push(block);
                    },
                    Kind::Record => {
                        self.record_blocks.push(block);
                    },
                }
                self.block_offsets = self.block_offsets + meta as u64 + data as u64;
            },
            Err(_) => {},
        }
        proof {
            self.log@ = Log { entries: old(self).log@.entries.push(entry), ..self.log@ };
            lemma_appended(*old(self), *self, entry);
        }
    }

    /// Whether the messages can be appended behind `offset`: each fits a
    /// frame, and the offset stays within what a block can hold.
    fn fits_behind(offset: u64, dictionaries: &[EncodedData], record: &EncodedData) -> (fits: bool)
        requires
            offset <= MAX_OFFSET,
        ensures
            fits == ({
                let added = as_entries(Kind::Dictionary, messages_view(dictionaries@)) + seq![
                    Entry { kind: Kind::Record, message: record@ },
                ];
                all_fit(added) && offset + frames_len(added) <= MAX_OFFSET
            }),
    {
        let ghost messages = messages_view(dictionaries@);
        let ghost listed = as_entries(Kind::Dictionary, messages);
        let ghost last = Entry { kind: Kind::Record, message: record@ };
        let mut end: u64 = offset;
        let mut i: usize = 0;
        assert(listed.take(0) =~= Seq::<Entry>::empty());
        while i < dictionaries.len()
            invariant
                i <= dictionaries.len(),
                messages == messages_view(dictionaries@),
                listed == as_entries(Kind::Dictionary, messages),
                listed.len() == dictionaries.len(),
                last == (Entry { kind: Kind::Record, message: record@ }),
                all_fit(listed.take(i as int)),
                end == offset + frames_len(listed.take(i as int)),
                end <= MAX_OFFSET,
            decreases dictionaries.len() - i,
        {
            let ghost entry = listed[i as int];
            proof {
                assert(listed.take(i + 1) =~= listed.take(i as int).push(entry));
                lemma_push(0, listed.take(i as int), entry, Kind::Dictionary);
                assert(entry.message == dictionaries@[i as int]@);
            }
            let fits = match frame_lengths(&dictionaries[i]) {
                Some((meta, data)) => {
                    let room = MAX_OFFSET - end;
                    if meta as u64 > room || data as u64 > room - meta as u64 {
                        None
                    } else {
                        Some(meta as u64 + data as u64)
                    }
                },
                None => None,
            };
            match fits {
                Some(length) => {
                    end = end + length;
                },
                None => {
                    proof {
                        if !fits_frame(entry.message) {
                            assert(listed.take(i + 1)[i as int] == entry);
                        }
                        lemma_fits_needs_prefix(offset, listed, last, i + 1);
                    }
                    return false;
                },
            }
            i += 1;
        }
        proof {
            assert(listed.take(i as int) =~= listed);
            assert(listed + seq![last] =~= listed.push(last));
            lemma_push(0, listed, last, Kind::Record);
            if !fits_frame(last.message) {
                assert((listed.push(last))[listed.len() as int] == last);
            }
        }
        match frame_lengths(record) {
            Some((meta, data)) => {
                let room = MAX_OFFSET - end;
                !(meta as u64 > room || data as u64 > room - meta as u64)
            },
            None => false,
        }
    }
}

impl FileWriter {
    /// Writes the given dictionary messages, in order, and then the record
    /// message: frames each of them, lists it in the block table of its kind
    /// at the running offset, and advances the running offset behind it.
    ///
    /// Fails, with nothing written, on a writer that is not started or
    /// already finished, and where a message does not fit a frame or the
    /// file would grow beyond the largest offset.
    pub fn write_encoded(
        &mut self,
        encoded_dictionaries: &[EncodedData],
        encoded_message: &EncodedData,
    ) -> (res: Result<(), Error>)
        requires
            old(self).wf(),
        ensures
            final(self).wf(),
            final(self)@ == old(self)@.write_encoded(
                messages_view(encoded_dictionaries@),
                encoded_message@,
            ).next,
            res == old(self)@.write_encoded(
                messages_view(encoded_dictionaries@),
                encoded_message@,
            ).result,
            res is Ok ==> final(self).buffered() == old(self).buffered() + frames(
                added(messages_view(encoded_dictionaries@), encoded_message@),
            ),
            res is Err ==> final(self).buffered() == old(self).buffered(),
            final(self).flushed() == old(self).flushed(),
            final(self).origin() == old(self).origin(),
            final(self).scratch() == old(self).scratch(),
    {
        if self.state != State::Started {
            return Err(Error::OutOfSequence(Operation::Write));
        }
        let ghost messages = messages_view(encoded_dictionaries@);
        let ghost listed = as_entries(Kind::Dictionary, messages);
        let ghost last = Entry { kind: Kind::Record, message: encoded_message@ };
        let ghost start = self@;
        proof {
            lemma_extended(start, messages, encoded_message@);
        }
        if !FileWriter::fits_behind(self.block_offsets, encoded_dictionaries, encoded_message) {
            return Err(Error::TooLarge);
        }
        // add all dictionaries
        let mut i: usize = 0;
        assert(listed.take(0) =~= Seq::<Entry>::empty());
        assert(start.entries + listed.take(0) =~= start.entries);
        assert(self.writer@ + frames(listed.take(0)) =~= self.writer@);
        while i < encoded_dictionaries.len()
            invariant
                i <= encoded_dictionaries.len(),
                self.wf(),
                start == old(self)@,
                start.state == State::Started,
                messages == messages_view(encoded_dictionaries@),
                listed == as_entries(Kind::Dictionary, messages),
                listed.len() == encoded_dictionaries.len(),
                last == (Entry { kind: Kind::Record, message: encoded_message@ }),
                all_fit(start.entries),
                all_fit(listed + seq![last]),
                start.offset() + frames_len(listed + seq![last]) <= MAX_OFFSET,
                self@ == (FileModel { entries: start.entries + listed.take(i as int), ..start }),
                self.buffered() == old(self).buffered() + frames(listed.take(i as int)),
                self.flushed() == old(self).flushed(),
                self.origin() == old(self).origin(),
                self.scratch() == old(self).scratch(),
            decreases encoded_dictionaries.len() - i,
        {
            let ghost entry = listed[i as int];
            proof {
                let whole = listed + seq![last];
                assert(whole.take(i + 1) =~= listed.take(i + 1));
                assert(listed.take(i + 1) =~= listed.take(i as int).push(entry));
                lemma_frames_len_prefix(whole, i + 1);
                lemma_push(0, listed.take(i as int), entry, Kind::Dictionary);
                lemma_frames_len_concat(start.entries, listed.take(i as int));
                assert(fits_frame(entry.message)) by {
                    assert(whole[i as int] == entry);
                }
                assert(entry.message == encoded_dictionaries@[i as int]@);
                assert((start.entries + listed.take(i as int)).push(entry) =~= start.entries
                    + listed.take(i + 1));
            }
            self.append_message(Kind::Dictionary, &encoded_dictionaries[i]);
            proof {
                assert(self.buffered() =~= old(self).buffered() + frames(listed.take(i + 1)));
            }
            i += 1;
        }
        proof {
            assert(listed.take(i as int) =~= listed);
            assert(listed + seq![last] =~= listed.push(last));
            lemma_push(0, listed, last, Kind::Record);
            lemma_frames_len_concat(start.entries, listed);
            assert(fits_frame(last.message)) by {
                assert((listed + seq![last])[listed.len() as int] == last);
            }
            assert((start.entries + listed).push(last) =~= start.extended(
                messages,
                encoded_message@,
            ));
        }
        // add a record block for the footer
        self.append_message(Kind::Record, encoded_message);
        proof {
            assert(self.buffered() =~= old(self).buffered() + frames(listed + seq![last]));
        }
        Ok(())
    }

    /// Writes one record message without dictionaries: frames it, lists it in
    /// the block table of the record batches at the running offset, and
    /// advances the running offset behind it. It fails as `write_encoded`
    /// does.
    pub fn write_encoded_record_batch(&mut self, encoded_message: &EncodedData) -> (res: Result<
        (),
        Error,
    >)
        requires
            old(self).wf(),
        ensures
            final(self).wf(),
            final(self)@ == old(self)@.write_encoded(Seq::empty(), encoded_message@).next,
            res == old(self)@.write_encoded(Seq::empty(), encoded_message@).result,
            res is Ok ==> final(self).buffered() == old(self).buffered() + frame(
                encoded_message@,
            ),
            res is Err ==> final(self).buffered() == old(self).buffered(),
            final(self).flushed() == old(self).flushed(),
            final(self).origin() == old(self).origin(),
            final(self).scratch() == old(self).scratch(),
    {
        let none: Vec<EncodedData> = Vec::new();
        proof {
            assert(messages_view(none@) =~= Seq::<Message>::empty());
            let last = Entry { kind: Kind::Record, message: encoded_message@ };
            assert(added(Seq::empty(), encoded_message@) =~= Seq::<Entry>::empty().push(last));
            lemma_push(0, Seq::empty(), last, Kind::Record);
            assert(frames(Seq::<Entry>::empty()) + frame(encoded_message@) =~= frame(
                encoded_message@,
            ));
        }
        self.write_encoded(none.as_slice(), encoded_message)
    }
}

impl FileWriter {
    /// Writes a batch: asks the dictionary tracker, column by column, which
    /// dictionaries of the batch must be written, and then writes those and
    /// the record message as `write_encoded` does. The field mapping given
    /// here is used in place of the writer's own.
    ///
    /// Fails, with nothing written, on a writer that is not started or
    /// already finished, where a dictionary column has no id in the field
    /// mapping, where a dictionary would have to be replaced, and where
    /// `write_encoded` fails.
    pub fn write(&mut self, chunk: &EncodedBatch, ipc_fields: Option<&[IpcField]>) -> (res: Result<
        (),
        Error,
    >)
        requires
            old(self).wf(),
        ensures
            final(self).wf(),
            final(self)@ == old(self)@.write(chunk@, mapping_view(ipc_fields)).next,
            res == old(self)@.write(chunk@, mapping_view(ipc_fields)).result,
            res is Ok ==> final(self).buffered() == old(self).buffered() + frames(
                added(old(self)@.emitted(chunk@, mapping_view(ipc_fields)), chunk@.record),
            ),
            res is Err ==> final(self).buffered() == old(self).buffered(),
            final(self).flushed() == old(self).flushed(),
            final(self).origin() == old(self).origin(),
            if old(self)@.stages(chunk@, mapping_view(ipc_fields)) {
                final(self).scratch()@ == chunk@.record
            } else {
                final(self).scratch() == old(self).scratch()
            },
    {
        if self.state != State::Started {
            return Err(Error::OutOfSequence(Operation::Write));
        }
        let mut scratch = EncodedData::default();
        std::mem::swap(&mut self.encoded_message, &mut scratch);
        let encoded = match ipc_fields {
            Some(ipc_fields) => encode_chunk_amortized(
                chunk,
                ipc_fields,
                &mut self.dictionary_tracker,
                &mut scratch,
            ),
            None => encode_chunk_amortized(
                chunk,
                self.ipc_fields.as_slice(),
                &mut self.dictionary_tracker,
                &mut scratch,
            ),
        };
        match encoded {
            Err(error) => {
                self.encoded_message = scratch;
                Err(error)
            },
            Ok(encoded_dictionaries) => {
                let res = self.write_encoded(encoded_dictionaries.as_slice(), &scratch);
                self.encoded_message = scratch;
                res
            },
        }
    }

    /// Closes the file with the given bytes as the footer: writes the four
    /// zero bytes that close the stream of messages, the footer, the length
    /// of the footer as four little-endian bytes, and the magic token. Fails,
    /// with nothing written, on a writer that is not started or already
    /// finished, and where the footer's length does not fit its field.
    pub fn finish_with(&mut self, footer: &[u8]) -> (res: Result<(), Error>)
        requires
            old(self).wf(),
        ensures
            final(self).wf(),
            final(self)@ == old(self)@.finish_with(footer@).next,
            res == old(self)@.finish_with(footer@).result,
            res is Ok ==> final(self).buffered() == old(self).buffered() + trailer(footer@),
            res is Err ==> final(self).buffered() == old(self).buffered(),
            final(self).flushed() == old(self).flushed(),
            final(self).origin() == old(self).origin(),
            final(self).scratch() == old(self).scratch(),
    {
        if self.state != State::Started {
            return Err(Error::OutOfSequence(Operation::Finish));
        }
        if footer.len() > MAX_FOOTER_LEN {
            return Err(Error::TooLarge);
        }
        // write EOS
        write_continuation(&mut self.writer, 0);
        self.writer.extend_from_slice(footer);
        let length = to_le_bytes(footer.len() as u32);
        self.writer.extend_from_slice(array_as_slice(&length));
        write_magic(&mut self.writer);
        self.state = State::Finished;
        proof {
            self.log@ = Log { footer: footer@, ..self.log@ };
            assert(self.writer@ =~= old(self).writer@ + trailer(footer@));
            assert(self.log@.flushed + self.writer@ =~= (old(self).log@.flushed + old(
                self,
            ).writer@) + trailer(footer@));
            assert(self.log@.origin + self@.file() =~= (old(self).log@.origin + old(
                self,
            )@.file()) + trailer(footer@));
        }
        Ok(())
    }

    /// Writes the footer and the closing magic token, and marks the writer as
    /// finished. The footer is the encoding of the schema with the custom
    /// metadata and of the two block tables, each in the order in which its
    /// messages were written.
    pub fn finish(&mut self) -> (res: Result<(), Error>)
        requires
            old(self).wf(),
        ensures
            final(self).wf(),
            final(self)@ == old(self)@.finish().next,
            res == old(self)@.finish().result,
            res is Ok ==> final(self).buffered() == old(self).buffered() + trailer(
                final(self)@.footer,
            ),
            res is Err ==> final(self).buffered() == old(self).buffered(),
            final(self).flushed() == old(self).flushed(),
            final(self).origin() == old(self).origin(),
            final(self).scratch() == old(self).scratch(),
    {
        if self.state != State::Started {
            return Err(Error::OutOfSequence(Operation::Finish));
        }
        let schema = with_metadata(&self.schema, &self.custom_schema_metadata);
        let footer_data = encode_footer(&schema, &self.dictionary_blocks, &self.record_blocks);
        self.finish_with(footer_data.as_slice())
    }
}

/// The field mapping given to `write`, if one was given.
pub open spec fn mapping_view(ipc_fields: Option<&[IpcField]>) -> Option<Seq<IpcField>> {
    match ipc_fields {
        Some(fields) => Some(fields@),
        None => None,
    }
}

/// The entries of a file after a write are its entries before and those
/// added; the frames of both are as long as the sum, and all fit where the
/// entries before and those added fit.
proof fn lemma_extended(model: FileModel, dictionaries: Seq<Message>, record: Message)
    ensures
        model.extended(dictionaries, record) == model.entries + added(dictionaries, record),
        frames_len(model.extended(dictionaries, record)) == frames_len(model.entries) + frames_len(
            added(dictionaries, record),
        ),
        all_fit(model.extended(dictionaries, record)) <==> all_fit(model.entries) && all_fit(
            added(dictionaries, record),
        ),
{
    assert(model.extended(dictionaries, record) =~= model.entries + added(dictionaries, record));
    lemma_frames_len_concat(model.entries, added(dictionaries, record));
}

/// A writer that has appended the frame of one entry to its buffer, pushed
/// the entry's block onto the table of its kind, advanced the running offset
/// by the frame's length and logged the entry, is well formed again.
proof fn lemma_appended(before: FileWriter, after: FileWriter, entry: Entry)
    requires
        before.wf(),
        before.state == State::Started,
        fits_frame(entry.message),
        before@.offset() + frame_len(entry.message) <= MAX_OFFSET,
        after.writer@ == before.writer@ + frame(entry.message),
        after.block_offsets == before.block_offsets + frame_len(entry.message),
        after.log@ == (Log { entries: before.log@.entries.push(entry), ..before.log@ }),
        after.state == before.state,
        after.schema == before.schema,
        after.ipc_fields == before.ipc_fields,
        after.dictionary_tracker == before.dictionary_tracker,
        after.encoded_message == before.encoded_message,
        after.custom_schema_metadata == before.custom_schema_metadata,
        ({
            let block = Block {
                offset: before.block_offsets,
                metadata_length: frame_metadata_len(entry.message) as u32,
                body_length: frame_body_len(entry.message) as u64,
            };
            match entry.kind {
                Kind::Dictionary => after.dictionary_blocks@ == before.dictionary_blocks@.push(
                    block,
                ) && after.record_blocks@ == before.record_blocks@,
                Kind::Record => after.record_blocks@ == before.record_blocks@.push(block)
                    && after.dictionary_blocks@ == before.dictionary_blocks@,
            }
        }),
    ensures
        after.wf(),
        after@ == (FileModel { entries: before@.entries.push(entry), ..before@ }),
{
    let base = before@.base();
    let entries = before.log@.entries;
    lemma_push(base, entries, entry, Kind::Dictionary);
    lemma_push(base, entries, entry, Kind::Record);
    assert(after@.base() == base);
    assert(after@.file() == before@.file() + frame(entry.message)) by {
        assert(after@.file() =~= before@.file() + frame(entry.message));
    }
    assert(after.log@.flushed + after.writer@ == after.log@.origin + after@.file()) by {
        assert(after.log@.flushed + after.writer@ =~= (before.log@.flushed + before.writer@)
            + frame(entry.message));
        assert(after.log@.origin + after@.file() =~= (before.log@.origin + before@.file())
            + frame(entry.message));
    }
    assert(after.dictionary_blocks@ == after@.dictionary_blocks());
    assert(after.record_blocks@ == after@.record_blocks());
}

/// Where the first `n` of the listed entries do not all fit, or reach beyond
/// the largest offset, the whole list with one more entry does not either.
proof fn lemma_fits_needs_prefix(offset: u64, listed: Seq<Entry>, last: Entry, n: int)
    requires
        0 <= n <= listed.len(),
        !(all_fit(listed.take(n)) && offset + frames_len(listed.take(n)) <= MAX_OFFSET),
    ensures
        !(all_fit(listed + seq![last]) && offset + frames_len(listed + seq![last]) <= MAX_OFFSET),
{
    let whole = listed + seq![last];
    assert(whole.take(n) =~= listed.take(n));
    lemma_frames_len_prefix(whole, n);
    if all_fit(whole) {
        assert forall|k: int| 0 <= k < n implies fits_frame(
            #[trigger] listed.take(n)[k].message,
        ) by {
            assert(listed.take(n)[k] == whole[k]);
        }
    }
}

} // verus!
