//! What can go wrong while a file is written.

use vstd::prelude::*;

verus! {

/// The operation that was called when the writer was in the wrong state.
#[derive(Debug, Clone, Copy, PartialEq, Eq, Structural)]
pub enum Operation {
    /// `start` on a writer that was started before.
    Start,
    /// `write`, `write_encoded` or `write_encoded_record_batch` on a writer
    /// that is not started or already finished.
    Write,
    /// `finish` on a writer that is not started or already finished.
    Finish,
    /// `set_custom_schema_metadata` on a writer that was started before.
    SetMetadata,
}

/// Why an operation of the writer failed. Every error is final: the writer
/// that returned it must not be used again.
#[derive(Debug, Clone, Copy, PartialEq, Eq, Structural)]
pub enum Error {
    /// The operation is not allowed in the writer's current state. Nothing
    /// was written and nothing changed.
    OutOfSequence(Operation),
    /// The dictionary with this id was written before with other content,
    /// and the tracker's policy forbids replacing it.
    DictionaryReplaced(i64),
    /// The column at this index carries a dictionary, but the field mapping
    /// gives no dictionary id for it.
    MissingDictionaryId(usize),
    /// A length or an offset does not fit the integer field the format
    /// stores it in.
    TooLarge,
}

impl Error {
    /// A sentence that describes the error.
    pub fn message(&self) -> (text: String)
        ensures
            self matches Error::OutOfSequence(Operation::Start) ==> text@
                == "The IPC file can only be started once"@,
            self matches Error::OutOfSequence(Operation::Write) ==> text@
                == "The IPC file must be started before it can be written to. Call `start` before `write`"@,
            self matches Error::OutOfSequence(Operation::Finish) ==> text@
                == "The IPC file must be started before it can be finished. Call `start` before `finish`"@,
            self matches Error::OutOfSequence(Operation::SetMetadata) ==> text@
                == "Custom schema metadata must be set before the IPC file is started"@,
            self is DictionaryReplaced ==> text@
                == "Dictionary replacement detected when writing IPC file format. Arrow IPC files only support a single dictionary for a given field across all batches."@,
            self is MissingDictionaryId ==> text@
                == "Dictionaries must have an associated dictionary id"@,
            self is TooLarge ==> text@
                == "A length or an offset exceeds what the IPC file format can store"@,
    {
        match self {
            Error::OutOfSequence(Operation::Start) => "The IPC file can only be started once".to_owned(),
            Error::OutOfSequence(Operation::Write) => "The IPC file must be started before it can be written to. Call `start` before `write`".to_owned(),
            Error::OutOfSequence(Operation::Finish) => "The IPC file must be started before it can be finished. Call `start` before `finish`".to_owned(),
            Error::OutOfSequence(Operation::SetMetadata) => "Custom schema metadata must be set before the IPC file is started".to_owned(),
            Error::DictionaryReplaced(_) => "Dictionary replacement detected when writing IPC file format. Arrow IPC files only support a single dictionary for a given field across all batches.".to_owned(),
            Error::MissingDictionaryId(_) => "Dictionaries must have an associated dictionary id".to_owned(),
            Error::TooLarge => "A length or an offset exceeds what the IPC file format can store".to_owned(),
        }
    }
}

} // verus!
