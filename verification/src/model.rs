//! The writer as a state machine over mathematical values.
//!
//! Every operation of the writer is a transition of this machine: it takes
//! the machine from one state to the next and says whether the operation
//! succeeded. The executable writer is proved to follow it step by step.

use vstd::prelude::*;
use crate::batch::{track, BatchModel};
use crate::error::{Error, Operation};
use crate::footer::{Block, MAX_OFFSET};
use crate::framing::{fits_frame, Message};
use crate::layout::{
    all_fit, as_entries, blocks, frames, frames_len, header, header_len, schema_frame, trailer,
    Entry, Kind,
};
use crate::schema::{footer_bytes, schema_message_bytes, schema_with_metadata, IpcField};

verus! {

/// Where a writer stands in its life.
#[derive(Debug, Clone, Copy, PartialEq, Eq, Structural)]
pub enum State {
    /// Nothing was written yet.
    NotStarted,
    /// The header was written; messages can be written.
    Started,
    /// The footer was written; the file is complete.
    Finished,
}

/// The longest footer: its length is stored in a signed 32-bit field.
pub const MAX_FOOTER_LEN: usize = 0x7fff_ffff;

/// The state of a writer.
pub struct FileModel {
    /// Where the writer stands in its life.
    pub state: State,
    /// The schema of the file.
    pub schema: arrow_format::ipc::Schema,
    /// The field mapping that `write` uses where it is given none.
    pub fields: Seq<IpcField>,
    /// The custom metadata that the footer will carry.
    pub metadata: Option<Seq<(Seq<char>, Seq<char>)>>,
    /// The bytes of the schema message, once the writer is started.
    pub schema_message: Seq<u8>,
    /// The messages written so far, oldest first.
    pub entries: Seq<Entry>,
    /// The bytes of the footer, once the writer is finished.
    pub footer: Seq<u8>,
    /// The content last written for each dictionary id.
    pub seen: Map<i64, Message>,
    /// Whether a dictionary that was written must keep its content.
    pub cannot_replace: bool,
}

/// The entries that one write adds to a file: the dictionary messages, in
/// order, and then the record message.
pub open spec fn added(dictionaries: Seq<Message>, record: Message) -> Seq<Entry> {
    as_entries(Kind::Dictionary, dictionaries) + seq![Entry { kind: Kind::Record, message: record }]
}

/// The outcome of an operation: the state it leaves and what it returns.
pub struct Step {
    /// The state after the operation.
    pub next: FileModel,
    /// What the operation returns.
    pub result: Result<(), Error>,
}

impl FileModel {
    /// The bytes of the file so far.
    pub open spec fn file(self) -> Seq<u8> {
        match self.state {
            State::NotStarted => Seq::empty(),
            State::Started => header(self.schema_message) + frames(self.entries),
            State::Finished => header(self.schema_message) + frames(self.entries) + trailer(
                self.footer,
            ),
        }
    }

    /// The offset of the first message behind the header.
    pub open spec fn base(self) -> nat {
        header_len(self.schema_message)
    }

    /// The running offset: the number of bytes written up to the end of the
    /// last message, which is where the next message will start.
    pub open spec fn offset(self) -> nat {
        match self.state {
            State::NotStarted => 0,
            _ => self.base() + frames_len(self.entries),
        }
    }

    /// The block table of the dictionaries.
    pub open spec fn dictionary_blocks(self) -> Seq<Block> {
        blocks(self.base(), self.entries, Kind::Dictionary)
    }

    /// The block table of the record batches.
    pub open spec fn record_blocks(self) -> Seq<Block> {
        blocks(self.base(), self.entries, Kind::Record)
    }

    /// The entries after the given dictionary messages and the given record
    /// message were written.
    pub open spec fn extended(self, dictionaries: Seq<Message>, record: Message) -> Seq<Entry> {
        self.entries + added(dictionaries, record)
    }

    /// What holds of every state that a writer reaches: before the start
    /// nothing is written; from then on the schema message and every message
    /// fit their frames, and the running offset is one that a block can hold.
    pub open spec fn valid(self) -> bool {
        &&& self.state == State::NotStarted ==> self.entries.len() == 0
        &&& self.state != State::NotStarted ==> fits_frame(schema_frame(self.schema_message))
        &&& all_fit(self.entries)
        &&& self.offset() <= MAX_OFFSET
        &&& self.state == State::Finished ==> self.footer.len() <= MAX_FOOTER_LEN
    }

    /// Writes the batches one after the other with the writer's own field
    /// mapping, and stops at the first that fails.
    pub open spec fn write_all(self, batches: Seq<BatchModel>) -> Step
        decreases batches.len(),
    {
        if batches.len() == 0 {
            Step { next: self, result: Ok(()) }
        } else {
            let before = self.write_all(batches.drop_last());
            if before.result is Err {
                before
            } else {
                before.next.write(batches.last(), None)
            }
        }
    }

    /// A failed operation that changed nothing.
    pub open spec fn rejected(self, error: Error) -> Step {
        Step { next: self, result: Err(error) }
    }

    /// `start_with`: writes the header with the given schema message.
    pub open spec fn start_with(self, schema_message: Seq<u8>) -> Step {
        if self.state != State::NotStarted {
            self.rejected(Error::OutOfSequence(Operation::Start))
        } else if !fits_frame(schema_frame(schema_message)) {
            self.rejected(Error::TooLarge)
        } else {
            Step {
                next: FileModel { state: State::Started, schema_message, ..self },
                result: Ok(()),
            }
        }
    }

    /// `start`: writes the header with the encoding of the schema, without
    /// custom metadata.
    pub open spec fn start(self) -> Step {
        self.start_with(schema_message_bytes(schema_with_metadata(self.schema, None)))
    }

    /// `write_encoded`: writes the dictionary messages, then the record
    /// message.
    pub open spec fn write_encoded(self, dictionaries: Seq<Message>, record: Message) -> Step {
        if self.state != State::Started {
            self.rejected(Error::OutOfSequence(Operation::Write))
        } else if !all_fit(self.extended(dictionaries, record)) || self.base() + frames_len(
            self.extended(dictionaries, record),
        ) > MAX_OFFSET {
            self.rejected(Error::TooLarge)
        } else {
            Step {
                next: FileModel { entries: self.extended(dictionaries, record), ..self },
                result: Ok(()),
            }
        }
    }

    /// The dictionary messages that `write` emits for the batch: those that
    /// the tracker decides to write, in column order.
    pub open spec fn emitted(self, batch: BatchModel, fields: Option<Seq<IpcField>>) -> Seq<
        Message,
    > {
        track(
            self.seen,
            self.cannot_replace,
            batch.dictionaries,
            match fields {
                Some(mapping) => mapping,
                None => self.fields,
            },
        ).emitted
    }

    /// Whether `write` gets as far as leaving the record message of the
    /// batch in the scratch message: it does where the writer is started and
    /// every dictionary of the batch is tracked without an error.
    pub open spec fn stages(self, batch: BatchModel, fields: Option<Seq<IpcField>>) -> bool {
        self.state == State::Started && track(
            self.seen,
            self.cannot_replace,
            batch.dictionaries,
            match fields {
                Some(mapping) => mapping,
                None => self.fields,
            },
        ).error is None
    }

    /// `write`: tracks the dictionaries of the batch, then writes those that
    /// the tracker emits and the record message.
    pub open spec fn write(self, batch: BatchModel, fields: Option<Seq<IpcField>>) -> Step {
        if self.state != State::Started {
            self.rejected(Error::OutOfSequence(Operation::Write))
        } else {
            let mapping = match fields {
                Some(mapping) => mapping,
                None => self.fields,
            };
            let tracking = track(self.seen, self.cannot_replace, batch.dictionaries, mapping);
            let after = FileModel { seen: tracking.seen, ..self };
            match tracking.error {
                Some(error) => after.rejected(error),
                None => after.write_encoded(tracking.emitted, batch.record),
            }
        }
    }

    /// `finish_with`: closes the file with the given footer.
    pub open spec fn finish_with(self, footer: Seq<u8>) -> Step {
        if self.state != State::Started {
            self.rejected(Error::OutOfSequence(Operation::Finish))
        } else if footer.len() > MAX_FOOTER_LEN {
            self.rejected(Error::TooLarge)
        } else {
            Step { next: FileModel { state: State::Finished, footer, ..self }, result: Ok(()) }
        }
    }

    /// `finish`: closes the file with the encoding of the schema, the custom
    /// metadata and the two block tables.
    pub open spec fn finish(self) -> Step {
        self.finish_with(
            footer_bytes(
                schema_with_metadata(self.schema, self.metadata),
                self.dictionary_blocks(),
                self.record_blocks(),
            ),
        )
    }

    /// `set_custom_schema_metadata`: attaches custom metadata; an empty list
    /// attaches none.
    pub open spec fn set_metadata(self, metadata: Seq<(Seq<char>, Seq<char>)>) -> Step {
        if self.state != State::NotStarted {
            self.rejected(Error::OutOfSequence(Operation::SetMetadata))
        } else {
            Step {
                next: FileModel {
                    metadata: if metadata.len() == 0 {
                        None
                    } else {
                        Some(metadata)
                    },
                    ..self
                },
                result: Ok(()),
            }
        }
    }
}

} // verus!
