use ipc_file_writer::error::Error;
use ipc_file_writer::bytes::{padding_for, to_le_bytes};
use ipc_file_writer::framing::{
    bytes_equal, frame_lengths, write_continuation, write_message, EncodedData,
};

#[test]
fn continuation_of_zero_is_four_zero_bytes() {
    let mut sink: Vec<u8> = Vec::new();
    assert_eq!(write_continuation(&mut sink, 0), 4);
    assert_eq!(sink, vec![0, 0, 0, 0]);
}

#[test]
fn continuation_is_little_endian() {
    let mut sink: Vec<u8> = vec![7];
    assert_eq!(write_continuation(&mut sink, 0x0102_0304), 4);
    assert_eq!(sink, vec![7, 4, 3, 2, 1]);
    let mut sink: Vec<u8> = Vec::new();
    write_continuation(&mut sink, -2);
    assert_eq!(sink, vec![0xfe, 0xff, 0xff, 0xff]);
}

#[test]
fn message_is_length_prefixed_and_padded() {
    let mut sink: Vec<u8> = Vec::new();
    let message = EncodedData::new(vec![1, 2, 3, 4, 5], vec![9, 8, 7]);
    let (meta, data) = write_message(&mut sink, &message).unwrap();
    assert_eq!((meta, data), (16, 8));
    assert_eq!(
        sink,
        vec![12, 0, 0, 0, 1, 2, 3, 4, 5, 0, 0, 0, 0, 0, 0, 0, 9, 8, 7, 0, 0, 0, 0, 0]
    );
}

#[test]
fn aligned_segments_get_no_padding() {
    let mut sink: Vec<u8> = Vec::new();
    let message = EncodedData::new(vec![1, 2, 3, 4], vec![1, 2, 3, 4, 5, 6, 7, 8]);
    assert_eq!(write_message(&mut sink, &message), Ok((8, 8)));
    assert_eq!(sink, vec![4, 0, 0, 0, 1, 2, 3, 4, 1, 2, 3, 4, 5, 6, 7, 8]);
}

#[test]
fn empty_message_is_a_padded_prefix() {
    let mut sink: Vec<u8> = Vec::new();
    assert_eq!(write_message(&mut sink, &EncodedData::default()), Ok((8, 0)));
    assert_eq!(sink, vec![4, 0, 0, 0, 0, 0, 0, 0]);
}

#[test]
fn error_messages_name_the_misuse() {
    assert_eq!(Error::TooLarge.message(), "A length or an offset exceeds what the IPC file format can store");
}

#[test]
fn oversized_metadata_does_not_fit_a_frame() {

    let mut sink: Vec<u8> = vec![1];
    let big = EncodedData::new(vec![0u8; 0x7fff_fff5], Vec::new());
    assert_eq!(frame_lengths(&big), None);
    assert_eq!(write_message(&mut sink, &big), Err(Error::TooLarge));
    assert_eq!(sink, vec![1]);
    let fits = EncodedData::new(vec![0u8; 20], vec![0u8; 20]);
    assert_eq!(frame_lengths(&fits), Some((24, 24)));
}

#[test]
fn equal_bytes_are_recognised() {

    assert!(bytes_equal(&[1, 2, 3], &[1, 2, 3]));
    assert!(!bytes_equal(&[1, 2, 3], &[1, 2, 4]));
    assert!(!bytes_equal(&[1, 2, 3], &[1, 2]));
    assert!(bytes_equal(&[], &[]));
    let message = EncodedData::new(vec![1, 2], vec![3]);
    let copy = message.duplicate();
    assert!(message.same_bytes(&copy));
    assert!(!message.same_bytes(&EncodedData::new(vec![1, 2], vec![4])));
    assert!(!message.same_bytes(&EncodedData::new(vec![1], vec![3])));
}

#[test]
fn padding_and_little_endian_bytes() {

    assert_eq!(padding_for(0), 0);
    assert_eq!(padding_for(1), 7);
    assert_eq!(padding_for(8), 0);
    assert_eq!(padding_for(13), 3);
    assert_eq!(to_le_bytes(0x1234_5678), [0x78, 0x56, 0x34, 0x12]);
    assert_eq!(to_le_bytes(u32::MAX), [0xff; 4]);
}
