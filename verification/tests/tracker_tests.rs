use ipc_file_writer::batch::{encode_chunk_amortized, EncodedBatch};
use ipc_file_writer::error::Error;
use ipc_file_writer::framing::EncodedData;
use ipc_file_writer::schema::IpcField;
use ipc_file_writer::tracker::DictionaryTracker;

fn content(bytes: &[u8]) -> EncodedData {
    EncodedData::new(vec![0xd0], bytes.to_vec())
}

fn mapping(ids: &[Option<i64>]) -> Vec<IpcField> {
    ids.iter().map(|id| IpcField { dictionary_id: *id }).collect()
}

#[test]
fn unseen_dictionary_is_emitted_and_recorded() {
    let mut tracker = DictionaryTracker::new(true);
    assert_eq!(tracker.insert(1, &content(&[1, 2])), Ok(true));
    assert_eq!(tracker.dictionaries.len(), 1);
    assert_eq!(tracker.dictionaries[&1].arrow_data, vec![1, 2]);
    assert_eq!(tracker.insert(2, &content(&[1, 2])), Ok(true));
    assert_eq!(tracker.dictionaries.len(), 2);
}

#[test]
fn seen_dictionary_with_same_content_is_skipped() {
    let mut tracker = DictionaryTracker::new(true);
    assert_eq!(tracker.insert(1, &content(&[1, 2])), Ok(true));
    assert_eq!(tracker.insert(1, &content(&[1, 2])), Ok(false));
    assert_eq!(tracker.dictionaries.len(), 1);
}

#[test]
fn changed_dictionary_is_an_error_where_replacement_is_forbidden() {
    let mut tracker = DictionaryTracker::new(true);
    assert_eq!(tracker.insert(1, &content(&[1, 2])), Ok(true));
    assert_eq!(tracker.insert(1, &content(&[1, 3])), Err(Error::DictionaryReplaced(1)));
    assert_eq!(tracker.dictionaries[&1].arrow_data, vec![1, 2]);
    assert_eq!(
        Error::DictionaryReplaced(1).message(),
        "Dictionary replacement detected when writing IPC file format. Arrow IPC files only support a single dictionary for a given field across all batches."
    );
}

#[test]
fn changed_dictionary_is_emitted_again_where_replacement_is_allowed() {
    let mut tracker = DictionaryTracker::new(false);
    assert_eq!(tracker.insert(1, &content(&[1, 2])), Ok(true));
    assert_eq!(tracker.insert(1, &content(&[1, 3])), Ok(true));
    assert_eq!(tracker.dictionaries[&1].arrow_data, vec![1, 3]);
    assert_eq!(tracker.insert(1, &content(&[1, 3])), Ok(false));
}

#[test]
fn metadata_counts_as_content() {
    let mut tracker = DictionaryTracker::new(true);
    assert_eq!(tracker.insert(1, &EncodedData::new(vec![1], vec![9])), Ok(true));
    assert_eq!(
        tracker.insert(1, &EncodedData::new(vec![2], vec![9])),
        Err(Error::DictionaryReplaced(1))
    );
}

#[test]
fn encoding_emits_new_dictionaries_in_column_order() {
    let mut tracker = DictionaryTracker::new(true);
    let mut scratch = EncodedData::new(vec![1; 40], vec![2; 40]);
    let batch = EncodedBatch::new(
        vec![Some(content(&[1])), None, Some(content(&[2])), Some(content(&[1]))],
        EncodedData::new(vec![7, 7], vec![8, 8, 8]),
    );
    let fields = mapping(&[Some(10), None, Some(11), Some(10)]);
    let emitted = encode_chunk_amortized(&batch, &fields, &mut tracker, &mut scratch).unwrap();
    assert_eq!(emitted.len(), 2);
    assert_eq!(emitted[0].arrow_data, vec![1]);
    assert_eq!(emitted[1].arrow_data, vec![2]);
    assert_eq!(scratch.ipc_message, vec![7, 7]);
    assert_eq!(scratch.arrow_data, vec![8, 8, 8]);
    let again = encode_chunk_amortized(&batch, &fields, &mut tracker, &mut scratch).unwrap();
    assert!(again.is_empty());
}

#[test]
fn encoding_stops_at_the_first_failing_column() {
    let mut tracker = DictionaryTracker::new(true);
    let mut scratch = EncodedData::new(vec![1], vec![2]);
    let batch = EncodedBatch::new(
        vec![Some(content(&[1])), Some(content(&[2])), Some(content(&[3]))],
        EncodedData::new(vec![7], vec![8]),
    );
    let fields = mapping(&[Some(10), None, Some(12)]);
    assert_eq!(
        encode_chunk_amortized(&batch, &fields, &mut tracker, &mut scratch).unwrap_err(),
        Error::MissingDictionaryId(1)
    );
    assert_eq!(tracker.dictionaries.len(), 1);
    assert_eq!(scratch.ipc_message, vec![1]);
    let short = mapping(&[Some(10)]);
    assert_eq!(
        encode_chunk_amortized(&batch, &short, &mut tracker, &mut scratch).unwrap_err(),
        Error::MissingDictionaryId(1)
    );
    let same_id = mapping(&[Some(10), Some(10), Some(12)]);
    assert_eq!(
        encode_chunk_amortized(&batch, &same_id, &mut tracker, &mut scratch).unwrap_err(),
        Error::DictionaryReplaced(10)
    );
    assert_eq!(
        Error::MissingDictionaryId(1).message(),
        "Dictionaries must have an associated dictionary id"
    );
}
