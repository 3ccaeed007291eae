use arrow_format::ipc;
use arrow_format::ipc::planus::ReadAsRoot;
use ipc_file_writer::batch::EncodedBatch;
use ipc_file_writer::error::{Error, Operation};
use ipc_file_writer::footer::Block;
use ipc_file_writer::framing::EncodedData;
use ipc_file_writer::model::State;
use ipc_file_writer::schema::{IpcField, KeyValue};
use ipc_file_writer::writer::FileWriter;

const MAGIC: [u8; 6] = [b'A', b'R', b'R', b'O', b'W', b'1'];

fn field(name: &str, dictionary_id: Option<i64>) -> ipc::Field {
    ipc::Field {
        name: Some(name.to_string()),
        nullable: true,
        type_: Some(ipc::Type::Int(Box::new(ipc::Int { bit_width: 32, is_signed: true }))),
        dictionary: dictionary_id.map(|id| {
            Box::new(ipc::DictionaryEncoding {
                id,
                index_type: Some(Box::new(ipc::Int { bit_width: 32, is_signed: true })),
                is_ordered: false,
                dictionary_kind: ipc::DictionaryKind::DenseArray,
            })
        }),
        children: None,
        custom_metadata: None,
    }
}

fn schema(fields: Vec<ipc::Field>) -> ipc::Schema {
    ipc::Schema {
        endianness: ipc::Endianness::Little,
        fields: Some(fields),
        custom_metadata: None,
        features: None,
    }
}

fn plain_schema() -> ipc::Schema {
    schema(vec![field("a", None), field("b", None)])
}

fn dictionary_schema() -> ipc::Schema {
    schema(vec![field("a", None), field("d", Some(7))])
}

fn message(metadata: &[u8], body: &[u8]) -> EncodedData {
    EncodedData::new(metadata.to_vec(), body.to_vec())
}

fn plain_batch(seed: u8) -> EncodedBatch {
    EncodedBatch::new(vec![None, None], message(&[seed, 1, 2], &[seed; 11]))
}

fn dictionary_batch(seed: u8, dictionary: &[u8]) -> EncodedBatch {
    EncodedBatch::new(
        vec![None, Some(message(&[0xd1, 0xd2], dictionary))],
        message(&[seed, 1, 2], &[seed; 11]),
    )
}

fn padded(len: usize) -> usize {
    (len + 7) / 8 * 8
}

fn schema_message_len(schema: &ipc::Schema) -> usize {
    let message = ipc::Message {
        version: ipc::MetadataVersion::V5,
        header: Some(ipc::MessageHeader::Schema(Box::new(schema.clone()))),
        body_length: 0,
        custom_metadata: None,
    };
    ipc::planus::Builder::new().finish(&message, None).len()
}

fn parse_footer(file: &[u8]) -> ipc::Footer {
    let end = file.len();
    assert_eq!(&file[end - 6..], &MAGIC[..]);
    let length = i32::from_le_bytes([file[end - 10], file[end - 9], file[end - 8], file[end - 7]]);
    let start = end - 10 - length as usize;
    let footer = ipc::FooterRef::read_as_root(&file[start..end - 10]).unwrap();
    ipc::Footer::try_from(footer).unwrap()
}

fn as_ipc(blocks: &Vec<Block>) -> Vec<ipc::Block> {
    blocks
        .iter()
        .map(|b| ipc::Block {
            offset: b.offset as i64,
            meta_data_length: b.metadata_length as i32,
            body_length: b.body_length as i64,
        })
        .collect()
}

#[test]
fn new_writer_has_written_nothing() {
    let writer = FileWriter::new(vec![1, 2, 3], plain_schema(), None);
    assert_eq!(writer.state(), State::NotStarted);
    assert_eq!(writer.block_offsets(), 0);
    assert!(writer.dictionary_blocks().is_empty());
    assert!(writer.record_blocks().is_empty());
    assert_eq!(writer.into_inner(), vec![1, 2, 3]);
}

#[test]
fn start_writes_magic_padding_and_schema_message() {
    let mut writer = FileWriter::new(Vec::new(), plain_schema(), None);
    assert_eq!(writer.start(), Ok(()));
    assert_eq!(writer.state(), State::Started);
    let offset = writer.block_offsets();
    let file = writer.into_inner();
    assert_eq!(&file[..6], &MAGIC[..]);
    assert_eq!(&file[6..8], &[0, 0]);
    let framed = padded(4 + schema_message_len(&plain_schema()));
    assert_eq!(file.len(), 8 + framed);
    assert_eq!(offset, (8 + framed) as u64);
    let prefix = i32::from_le_bytes([file[8], file[9], file[10], file[11]]);
    assert_eq!(prefix as usize, framed - 4);
    let parsed = ipc::MessageRef::read_as_root(&file[12..]).unwrap();
    let parsed = ipc::Message::try_from(parsed).unwrap();
    assert_eq!(parsed.version, ipc::MetadataVersion::V5);
    assert_eq!(parsed.body_length, 0);
    assert_eq!(parsed.header, Some(ipc::MessageHeader::Schema(Box::new(plain_schema()))));
}

#[test]
fn try_new_starts_the_file() {
    let writer = FileWriter::try_new(Vec::new(), plain_schema(), None).unwrap();
    assert_eq!(writer.state(), State::Started);
    let mut other = FileWriter::new(Vec::new(), plain_schema(), None);
    other.start().unwrap();
    assert_eq!(writer.into_inner(), other.into_inner());
}

#[test]
fn write_before_start_is_out_of_sequence() {
    let mut writer = FileWriter::new(vec![9], plain_schema(), None);
    assert_eq!(writer.write(&plain_batch(1), None), Err(Error::OutOfSequence(Operation::Write)));
    assert_eq!(
        writer.write_encoded(&[], &message(&[1], &[2])),
        Err(Error::OutOfSequence(Operation::Write))
    );
    assert_eq!(
        writer.write_encoded_record_batch(&message(&[1], &[2])),
        Err(Error::OutOfSequence(Operation::Write))
    );
    assert_eq!(writer.state(), State::NotStarted);
    assert_eq!(writer.block_offsets(), 0);
    assert!(writer.dictionary_blocks().is_empty());
    assert!(writer.record_blocks().is_empty());
    assert_eq!(writer.into_inner(), vec![9]);
}

#[test]
fn finish_before_start_is_out_of_sequence() {
    let mut writer = FileWriter::new(Vec::new(), plain_schema(), None);
    assert_eq!(writer.finish(), Err(Error::OutOfSequence(Operation::Finish)));
    assert_eq!(writer.finish_with(&[1, 2]), Err(Error::OutOfSequence(Operation::Finish)));
    assert_eq!(writer.state(), State::NotStarted);
    assert_eq!(writer.block_offsets(), 0);
    assert!(writer.dictionary_blocks().is_empty());
    assert!(writer.record_blocks().is_empty());
    assert!(writer.into_inner().is_empty());
}

#[test]
fn start_twice_is_out_of_sequence_and_writes_nothing() {
    let mut writer = FileWriter::new(Vec::new(), plain_schema(), None);
    writer.start().unwrap();
    let offset = writer.block_offsets();
    assert_eq!(writer.start(), Err(Error::OutOfSequence(Operation::Start)));
    assert_eq!(writer.start_with(vec![1, 2, 3]), Err(Error::OutOfSequence(Operation::Start)));
    assert_eq!(writer.block_offsets(), offset);
    assert_eq!(writer.state(), State::Started);
    let file = writer.into_inner();
    assert_eq!(file.len() as u64, offset);
    assert_eq!(file.iter().filter(|b| **b == b'A').count(), 1);
}

#[test]
fn nothing_is_allowed_after_finish() {
    let mut writer = FileWriter::try_new(Vec::new(), plain_schema(), None).unwrap();
    writer.write(&plain_batch(1), None).unwrap();
    writer.finish().unwrap();
    assert_eq!(writer.state(), State::Finished);
    let len = writer.take_written().len();
    assert!(len > 0);
    assert_eq!(writer.finish(), Err(Error::OutOfSequence(Operation::Finish)));
    assert_eq!(writer.start(), Err(Error::OutOfSequence(Operation::Start)));
    assert_eq!(writer.write(&plain_batch(2), None), Err(Error::OutOfSequence(Operation::Write)));
    assert_eq!(
        writer.write_encoded_record_batch(&message(&[1], &[])),
        Err(Error::OutOfSequence(Operation::Write))
    );
    assert_eq!(
        writer.set_custom_schema_metadata(Vec::new()),
        Err(Error::OutOfSequence(Operation::SetMetadata))
    );
    assert_eq!(writer.record_blocks().len(), 1);
    assert!(writer.into_inner().is_empty());
}

#[test]
fn batches_without_dictionaries_give_one_record_block_each() {
    let mut writer = FileWriter::try_new(Vec::new(), plain_schema(), None).unwrap();
    for seed in 0..5u8 {
        writer.write(&plain_batch(seed), None).unwrap();
    }
    writer.finish().unwrap();
    assert_eq!(writer.record_blocks().len(), 5);
    assert_eq!(writer.dictionary_blocks().len(), 0);
    let footer = parse_footer(&writer.into_inner());
    assert_eq!(footer.record_batches.unwrap().len(), 5);
    assert_eq!(footer.dictionaries.unwrap().len(), 0);
}

#[test]
fn blocks_hold_exact_offsets_and_lengths() {
    let mut writer = FileWriter::try_new(Vec::new(), dictionary_schema(), None).unwrap();
    let base = writer.block_offsets();
    writer.write(&dictionary_batch(1, &[5; 9]), None).unwrap();
    writer.write_encoded_record_batch(&message(&[1; 12], &[])).unwrap();
    assert_eq!(
        writer.dictionary_blocks(),
        &vec![Block { offset: base, metadata_length: 8, body_length: 16 }]
    );
    assert_eq!(
        writer.record_blocks(),
        &vec![
            Block { offset: base + 24, metadata_length: 8, body_length: 16 },
            Block { offset: base + 48, metadata_length: 16, body_length: 0 },
        ]
    );
    assert_eq!(writer.block_offsets(), base + 64);
}

#[test]
fn blocks_do_not_overlap() {
    let mut writer = FileWriter::try_new(Vec::new(), dictionary_schema(), None).unwrap();
    writer.write(&dictionary_batch(1, &[5; 9]), None).unwrap();
    for seed in 0..4u8 {
        writer.write(&plain_batch(seed), None).unwrap();
    }
    let mut all: Vec<Block> = writer.dictionary_blocks().clone();
    all.extend(writer.record_blocks().iter());
    all.sort_by_key(|b| b.offset);
    for pair in all.windows(2) {
        assert!(pair[0].offset < pair[1].offset);
        assert!(pair[0].offset + pair[0].metadata_length as u64 + pair[0].body_length <= pair[1].offset);
    }
    let last = all.last().unwrap();
    assert_eq!(last.offset + last.metadata_length as u64 + last.body_length, writer.block_offsets());
}

#[test]
fn identical_dictionary_is_written_once() {
    let mut writer = FileWriter::try_new(Vec::new(), dictionary_schema(), None).unwrap();
    writer.write(&dictionary_batch(1, &[5; 9]), None).unwrap();
    writer.write(&dictionary_batch(2, &[5; 9]), None).unwrap();
    assert_eq!(writer.dictionary_blocks().len(), 1);
    assert_eq!(writer.record_blocks().len(), 2);
}

#[test]
fn changed_dictionary_is_rejected_and_nothing_is_written() {
    let mut writer = FileWriter::try_new(Vec::new(), dictionary_schema(), None).unwrap();
    writer.write(&dictionary_batch(1, &[5; 9]), None).unwrap();
    let offset = writer.block_offsets();
    let written = writer.take_written();
    assert_eq!(written.len() as u64, offset);
    assert_eq!(
        writer.write(&dictionary_batch(2, &[6; 9]), None),
        Err(Error::DictionaryReplaced(7))
    );
    assert_eq!(writer.block_offsets(), offset);
    assert_eq!(writer.record_blocks().len(), 1);
    assert_eq!(writer.dictionary_blocks().len(), 1);
    assert!(writer.into_inner().is_empty());
}

#[test]
fn dictionary_without_id_is_rejected() {
    let mut writer = FileWriter::try_new(Vec::new(), plain_schema(), None).unwrap();
    assert_eq!(
        writer.write(&dictionary_batch(1, &[5; 9]), None),
        Err(Error::MissingDictionaryId(1))
    );
    let short = [IpcField { dictionary_id: None }];
    assert_eq!(
        writer.write(&dictionary_batch(1, &[5; 9]), Some(&short[..])),
        Err(Error::MissingDictionaryId(1))
    );
    assert_eq!(writer.record_blocks().len(), 0);
}

#[test]
fn given_field_mapping_takes_the_place_of_the_writers() {
    let mut writer = FileWriter::try_new(Vec::new(), plain_schema(), None).unwrap();
    let mapping = [IpcField { dictionary_id: None }, IpcField { dictionary_id: Some(3) }];
    writer.write(&dictionary_batch(1, &[5; 9]), Some(&mapping[..])).unwrap();
    assert_eq!(
        writer.write(&dictionary_batch(2, &[6; 9]), Some(&mapping[..])),
        Err(Error::DictionaryReplaced(3))
    );
    let mut writer = FileWriter::try_new(
        Vec::new(),
        plain_schema(),
        Some(vec![IpcField { dictionary_id: None }, IpcField { dictionary_id: Some(4) }]),
    )
    .unwrap();
    writer.write(&dictionary_batch(1, &[5; 9]), None).unwrap();
    assert_eq!(writer.dictionary_blocks().len(), 1);
}

#[test]
fn file_parses_back_to_what_was_written() {
    let mut writer = FileWriter::new(Vec::new(), dictionary_schema(), None);
    writer
        .set_custom_schema_metadata(vec![KeyValue { key: "k".to_string(), value: "v".to_string() }])
        .unwrap();
    writer.start().unwrap();
    let batches = vec![dictionary_batch(1, &[5; 9]), dictionary_batch(2, &[5; 9]), plain_batch(3)];
    for batch in &batches {
        writer.write(batch, None).unwrap();
    }
    writer.finish().unwrap();
    let dictionary_blocks = writer.dictionary_blocks().clone();
    let record_blocks = writer.record_blocks().clone();
    let file = writer.into_inner();

    let footer = parse_footer(&file);
    assert_eq!(footer.version, ipc::MetadataVersion::V5);
    assert_eq!(footer.dictionaries, Some(as_ipc(&dictionary_blocks)));
    assert_eq!(footer.record_batches, Some(as_ipc(&record_blocks)));
    assert_eq!(footer.custom_metadata, None);
    let mut expected = dictionary_schema();
    expected.custom_metadata =
        Some(vec![ipc::KeyValue { key: Some("k".to_string()), value: Some("v".to_string()) }]);
    assert_eq!(footer.schema, Some(Box::new(expected)));

    assert_eq!(record_blocks.len(), 3);
    for (block, batch) in record_blocks.iter().zip(batches.iter()) {
        let at = block.offset as usize;
        let prefix = i32::from_le_bytes([file[at], file[at + 1], file[at + 2], file[at + 3]]);
        assert_eq!(prefix as u32 + 4, block.metadata_length);
        let metadata = &file[at + 4..at + 4 + batch.record.ipc_message.len()];
        assert_eq!(metadata, &batch.record.ipc_message[..]);
        let body_at = at + block.metadata_length as usize;
        let body = &file[body_at..body_at + batch.record.arrow_data.len()];
        assert_eq!(body, &batch.record.arrow_data[..]);
        assert_eq!(block.body_length as usize, padded(batch.record.arrow_data.len()));
    }
    assert_eq!(dictionary_blocks.len(), 1);
    let at = dictionary_blocks[0].offset as usize;
    assert_eq!(&file[at + 4..at + 6], &[0xd1, 0xd2]);
    assert_eq!(&file[at + 8..at + 17], &[5; 9]);
}

#[test]
fn file_length_is_the_sum_of_its_parts() {
    let mut writer = FileWriter::try_new(Vec::new(), dictionary_schema(), None).unwrap();
    let framed_schema = padded(4 + schema_message_len(&dictionary_schema()));
    writer.write(&dictionary_batch(1, &[5; 9]), None).unwrap();
    writer.write(&plain_batch(2), None).unwrap();
    let framed_messages = (8 + 16) + (8 + 16) + (8 + 16);
    writer.finish_with(&[1, 2, 3, 4, 5]).unwrap();
    let file = writer.into_inner();
    assert_eq!(file.len(), 8 + framed_schema + framed_messages + 4 + 5 + 4 + 6);
    let end = file.len();
    assert_eq!(&file[end - 19..end - 15], &[0, 0, 0, 0]);
    assert_eq!(&file[end - 15..end - 10], &[1, 2, 3, 4, 5]);
    assert_eq!(&file[end - 10..end - 6], &[5, 0, 0, 0]);
    assert_eq!(&file[end - 6..], &MAGIC[..]);
}

#[test]
fn scratch_reuse_does_not_change_the_file() {
    let batches = vec![plain_batch(1), plain_batch(2)];
    let mut first = FileWriter::try_new(Vec::new(), plain_schema(), None).unwrap();
    for batch in &batches {
        first.write(batch, None).unwrap();
    }
    first.finish().unwrap();
    let scratches = first.get_scratches();
    assert_eq!(scratches.ipc_message, vec![2, 1, 2]);
    assert_eq!(scratches.arrow_data, vec![2; 11]);
    assert!(first.get_scratches().ipc_message.is_empty());
    let without_reuse = first.into_inner();

    let mut second = FileWriter::new(Vec::new(), plain_schema(), None);
    second.set_scratches(scratches);
    second.start().unwrap();
    for batch in &batches {
        second.write(batch, None).unwrap();
    }
    second.finish().unwrap();
    assert_eq!(second.into_inner(), without_reuse);
}

#[test]
fn taking_the_written_bytes_streams_the_same_file() {
    let mut whole = FileWriter::try_new(Vec::new(), plain_schema(), None).unwrap();
    whole.write(&plain_batch(1), None).unwrap();
    whole.finish().unwrap();
    let whole = whole.into_inner();

    let mut streamed: Vec<u8> = Vec::new();
    let mut writer = FileWriter::new(Vec::new(), plain_schema(), None);
    writer.start().unwrap();
    streamed.extend(writer.take_written());
    writer.write(&plain_batch(1), None).unwrap();
    streamed.extend(writer.take_written());
    writer.finish().unwrap();
    streamed.extend(writer.take_written());
    assert!(writer.into_inner().is_empty());
    assert_eq!(streamed, whole);
}

#[test]
fn custom_metadata_is_taken_only_before_start() {
    let mut writer = FileWriter::new(Vec::new(), plain_schema(), None);
    assert_eq!(writer.set_custom_schema_metadata(Vec::new()), Ok(()));
    writer.start().unwrap();
    assert_eq!(
        writer.set_custom_schema_metadata(vec![KeyValue {
            key: "k".to_string(),
            value: "v".to_string()
        }]),
        Err(Error::OutOfSequence(Operation::SetMetadata))
    );
    writer.finish().unwrap();
    let footer = parse_footer(&writer.into_inner());
    assert_eq!(footer.schema, Some(Box::new(plain_schema())));
}

#[test]
fn sequencing_errors_describe_the_misuse() {
    assert_eq!(
        Error::OutOfSequence(Operation::Start).message(),
        "The IPC file can only be started once"
    );
    assert_eq!(
        Error::OutOfSequence(Operation::Write).message(),
        "The IPC file must be started before it can be written to. Call `start` before `write`"
    );
    assert_eq!(
        Error::OutOfSequence(Operation::Finish).message(),
        "The IPC file must be started before it can be finished. Call `start` before `finish`"
    );
}

#[test]
fn schema_message_carries_no_custom_metadata() {
    let mut with_own = plain_schema();
    with_own.custom_metadata =
        Some(vec![ipc::KeyValue { key: Some("x".to_string()), value: Some("y".to_string()) }]);
    let mut writer = FileWriter::new(Vec::new(), with_own, None);
    writer.start().unwrap();
    writer.finish().unwrap();
    let file = writer.into_inner();
    let parsed = ipc::MessageRef::read_as_root(&file[12..]).unwrap();
    let parsed = ipc::Message::try_from(parsed).unwrap();
    assert_eq!(parsed.header, Some(ipc::MessageHeader::Schema(Box::new(plain_schema()))));
    assert_eq!(parse_footer(&file).schema, Some(Box::new(plain_schema())));
}

#[test]
fn every_block_is_aligned_to_eight_bytes() {
    let mut writer = FileWriter::try_new(Vec::new(), dictionary_schema(), None).unwrap();
    writer.write(&dictionary_batch(1, &[5; 13]), None).unwrap();
    writer.write_encoded(&[message(&[1; 3], &[2; 5])], &message(&[3; 21], &[4; 1])).unwrap();
    assert_eq!(writer.dictionary_blocks().len(), 2);
    assert_eq!(writer.record_blocks().len(), 2);
    for block in writer.dictionary_blocks().iter().chain(writer.record_blocks().iter()) {
        assert_eq!(block.offset % 8, 0);
        assert_eq!(block.metadata_length % 8, 0);
        assert_eq!(block.body_length % 8, 0);
    }
    assert_eq!(writer.block_offsets() % 8, 0);
}

#[test]
fn oversized_footer_is_rejected() {
    let mut writer = FileWriter::try_new(Vec::new(), plain_schema(), None).unwrap();
    let offset = writer.block_offsets();
    let footer = vec![0u8; 0x8000_0000];
    assert_eq!(writer.finish_with(&footer), Err(Error::TooLarge));
    assert_eq!(writer.state(), State::Started);
    assert_eq!(writer.into_inner().len() as u64, offset);
    assert_eq!(
        Error::TooLarge.message(),
        "A length or an offset exceeds what the IPC file format can store"
    );
}

#[test]
fn oversized_message_is_rejected() {
    let big = EncodedData::new(vec![0u8; 0x7fff_fff5], Vec::new());
    let mut writer = FileWriter::try_new(Vec::new(), plain_schema(), None).unwrap();
    let offset = writer.block_offsets();
    assert_eq!(writer.write_encoded_record_batch(&big), Err(Error::TooLarge));
    assert_eq!(writer.write_encoded(&[message(&[1], &[2])], &big), Err(Error::TooLarge));
    assert_eq!(writer.block_offsets(), offset);
    assert!(writer.record_blocks().is_empty());
    assert!(writer.dictionary_blocks().is_empty());
    assert_eq!(writer.into_inner().len() as u64, offset);

    let mut writer = FileWriter::new(Vec::new(), plain_schema(), None);
    assert_eq!(writer.start_with(big.ipc_message), Err(Error::TooLarge));
    assert_eq!(writer.state(), State::NotStarted);
    assert!(writer.into_inner().is_empty());
}
