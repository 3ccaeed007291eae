//! A record batch as the writer receives it, and the step that turns it into
//! the messages to write.
//!
//! The columns of a batch arrive serialized: the batch holds the record-batch
//! message and, for every dictionary-encoded column, the message of that
//! column's dictionary. Which of the dictionary messages are written is
//! decided here, column by column, by the dictionary tracker.

use vstd::prelude::*;
use crate::error::Error;
use crate::framing::{EncodedData, Message};
use crate::schema::IpcField;
use crate::tracker::{decide, Decision, DictionaryTracker};

verus! {

/// A record batch whose columns have been serialized.
#[derive(Debug)]
pub struct EncodedBatch {
    /// For each column, in the order of the schema's fields, the message of
    /// its dictionary if the column is dictionary-encoded.
    pub dictionaries: Vec<Option<EncodedData>>,
    /// The record-batch message.
    pub record: EncodedData,
}

/// A batch as a pair of mathematical values.
pub struct BatchModel {
    /// For each column the content of its dictionary, if it has one.
    pub dictionaries: Seq<Option<Message>>,
    /// The record-batch message.
    pub record: Message,
}

/// The dictionaries of the columns as mathematical values.
pub open spec fn columns_view(columns: Seq<Option<EncodedData>>) -> Seq<Option<Message>> {
    Seq::new(
        columns.len(),
        |i: int|
            match columns[i] {
                Some(content) => Some(content@),
                None => None,
            },
    )
}

/// The messages of a list as mathematical values.
pub open spec fn messages_view(messages: Seq<EncodedData>) -> Seq<Message> {
    Seq::new(messages.len(), |i: int| messages[i]@)
}

impl View for EncodedBatch {
    type V = BatchModel;

    open spec fn view(&self) -> BatchModel {
        BatchModel { dictionaries: columns_view(self.dictionaries@), record: self.record@ }
    }
}

impl EncodedBatch {
    /// A batch of the given columns and record-batch message.
    pub fn new(dictionaries: Vec<Option<EncodedData>>, record: EncodedData) -> (batch:
        EncodedBatch)
        ensures
            batch.dictionaries == dictionaries,
            batch.record == record,
    {
        EncodedBatch { dictionaries, record }
    }
}

/// Where the tracker stands after some columns of a batch.
pub struct Tracking {
    /// The content last written for each dictionary id.
    pub seen: Map<i64, Message>,
    /// The dictionary messages to write for the batch, in column order.
    pub emitted: Seq<Message>,
    /// The error that stopped the tracking, if one did.
    pub error: Option<Error>,
}

/// Tracks the column at `index`. After an error nothing changes any more. A
/// column without a dictionary changes nothing. A dictionary needs an id from
/// the field mapping; with it the tracker decides.
pub open spec fn track_column(
    before: Tracking,
    cannot_replace: bool,
    index: int,
    column: Option<Message>,
    fields: Seq<IpcField>,
) -> Tracking {
    if before.error is Some {
        before
    } else {
        match column {
            None => before,
            Some(content) => {
                if index >= fields.len() || fields[index].dictionary_id is None {
                    Tracking { error: Some(Error::MissingDictionaryId(index as usize)), ..before }
                } else {
                    let id = fields[index].dictionary_id->0;
                    match decide(before.seen, cannot_replace, id, content) {
                        Decision::Emit => Tracking {
                            seen: before.seen.insert(id, content),
                            emitted: before.emitted.push(content),
                            error: None,
                        },
                        Decision::Skip => before,
                        Decision::Reject => Tracking {
                            error: Some(Error::DictionaryReplaced(id)),
                            ..before
                        },
                    }
                }
            },
        }
    }
}

/// Tracks the columns of a batch from the first to the last, starting from
/// the dictionaries in `seen`.
pub open spec fn track(
    seen: Map<i64, Message>,
    cannot_replace: bool,
    columns: Seq<Option<Message>>,
    fields: Seq<IpcField>,
) -> Tracking
    decreases columns.len(),
{
    if columns.len() == 0 {
        Tracking { seen, emitted: Seq::empty(), error: None }
    } else {
        track_column(
            track(seen, cannot_replace, columns.drop_last(), fields),
            cannot_replace,
            columns.len() - 1,
            columns.last(),
            fields,
        )
    }
}

/// Once tracking has met an error, further columns change nothing.
pub proof fn lemma_track_error_is_final(
    seen: Map<i64, Message>,
    cannot_replace: bool,
    columns: Seq<Option<Message>>,
    fields: Seq<IpcField>,
    n: int,
)
    requires
        0 <= n <= columns.len(),
        track(seen, cannot_replace, columns.take(n), fields).error is Some,
    ensures
        track(seen, cannot_replace, columns, fields) == track(
            seen,
            cannot_replace,
            columns.take(n),
            fields,
        ),
    decreases columns.len(),
{
    if n == columns.len() {
        assert(columns.take(n) =~= columns);
    } else {
        assert(columns.drop_last().take(n) =~= columns.take(n));
        lemma_track_error_is_final(seen, cannot_replace, columns.drop_last(), fields, n);
    }
}

/// Encodes a batch: asks the tracker, column by column, whether the column's
/// dictionary must be written, and returns the dictionary messages to write,
/// in column order. The record-batch message of the batch is left in
/// `encoded_message`, whose buffers are reused from one batch to the next.
///
/// On an error the tracker keeps what it recorded up to the failing column,
/// and `encoded_message` is unchanged.
pub fn encode_chunk_amortized(
    chunk: &EncodedBatch,
    fields: &[IpcField],
    dictionary_tracker: &mut DictionaryTracker,
    encoded_message: &mut EncodedData,
) -> (res: Result<Vec<EncodedData>, Error>)
    ensures
        final(dictionary_tracker).cannot_replace == old(dictionary_tracker).cannot_replace,
        ({
            let outcome = track(
                old(dictionary_tracker).seen(),
                old(dictionary_tracker).cannot_replace,
                chunk@.dictionaries,
                fields@,
            );
            &&& final(dictionary_tracker).seen() == outcome.seen
            &&& match outcome.error {
                None => {
                    &&& res is Ok
                    &&& messages_view(res->Ok_0@) == outcome.emitted
                    &&& final(encoded_message)@ == chunk@.record
                },
                Some(e) => {
                    &&& res == Err::<Vec<EncodedData>, Error>(e)
                    &&& *final(encoded_message) == *old(encoded_message)
                },
            }
        }),
{
    let ghost seen = dictionary_tracker.seen();
    let ghost cannot_replace = dictionary_tracker.cannot_replace;
    let ghost columns = chunk@.dictionaries;
    let mut encoded_dictionaries: Vec<EncodedData> = Vec::new();
    let mut i: usize = 0;
    assert(columns.take(0) =~= Seq::<Option<Message>>::empty());
    assert(messages_view(encoded_dictionaries@) =~= Seq::<Message>::empty());
    while i < chunk.dictionaries.len()
        invariant
            i <= chunk.dictionaries.len(),
            columns == chunk@.dictionaries,
            columns.len() == chunk.dictionaries.len(),
            dictionary_tracker.cannot_replace == cannot_replace,
            seen == old(dictionary_tracker).seen(),
            cannot_replace == old(dictionary_tracker).cannot_replace,
            *encoded_message == *old(encoded_message),
            track(seen, cannot_replace, columns.take(i as int), fields@) == (Tracking {
                seen: dictionary_tracker.seen(),
                emitted: messages_view(encoded_dictionaries@),
                error: None,
            }),
        decreases chunk.dictionaries.len() - i,
    {
        let ghost before = track(seen, cannot_replace, columns.take(i as int), fields@);
        proof {
            assert(columns.take(i + 1).drop_last() =~= columns.take(i as int));
            assert(columns.take(i + 1).last() == columns[i as int]);
        }
        match &chunk.dictionaries[i] {
            None => {},
            Some(content) => {
                assert(columns[i as int] == Some(content@));
                if i >= fields.len() {
                    proof {
                        lemma_track_error_is_final(seen, cannot_replace, columns, fields@, i + 1);
                    }
                    return Err(Error::MissingDictionaryId(i));
                }
                match fields[i].dictionary_id {
                    None => {
                        proof {
                            lemma_track_error_is_final(
                                seen,
                                cannot_replace,
                                columns,
                                fields@,
                                i + 1,
                            );
                        }
                        return Err(Error::MissingDictionaryId(i));
                    },
                    Some(dict_id) => {
                        match dictionary_tracker.insert(dict_id, content) {
                            Err(e) => {
                                proof {
                                    lemma_track_error_is_final(
                                        seen,
                                        cannot_replace,
                                        columns,
                                        fields@,
                                        i + 1,
                                    );
                                }
                                return Err(e);
                            },
                            Ok(emit) => {
                                if emit {
                                    let ghost emitted = messages_view(encoded_dictionaries@);
                                    encoded_dictionaries.push(content.duplicate());
                                    assert(messages_view(encoded_dictionaries@) =~= emitted.push(
                                        content@,
                                    ));
                                }
                            },
                        }
                    },
                }
            },
        }
        i += 1;
    }
    assert(columns.take(i as int) =~= columns);
    encoded_message.ipc_message.clear();
    encoded_message.ipc_message.extend_from_slice(chunk.record.ipc_message.as_slice());
    encoded_message.arrow_data.clear();
    encoded_message.arrow_data.extend_from_slice(chunk.record.arrow_data.as_slice());
    assert(encoded_message.ipc_message@ =~= chunk.record.ipc_message@);
    assert(encoded_message.arrow_data@ =~= chunk.record.arrow_data@);
    Ok(encoded_dictionaries)
}

} // verus!
