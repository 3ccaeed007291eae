//! The schema of a file and the encoders that turn it into bytes.
//!
//! The schema is a value of `arrow_format`'s object model. The writer never
//! looks inside it: it hands it to the flatbuffer encoder, once for the schema
//! message that opens the file and once for the footer that closes it.

use vstd::prelude::*;
use crate::footer::Block;

verus! {

/// `arrow_format::ipc::Schema`: the fields of a file, each with its name and
/// type. Opaque to the proofs.
#[verifier::external_type_specification]
#[verifier::external_body]
pub struct ExSchema(arrow_format::ipc::Schema);

/// What the writer needs to know of one field beyond the schema: the id under
/// which the dictionary of a dictionary-encoded column is tracked.
#[derive(Debug, Clone, Copy, PartialEq, Eq, Structural)]
pub struct IpcField {
    /// The dictionary id of the column, if it is dictionary-encoded.
    pub dictionary_id: Option<i64>,
}

/// One entry of the custom metadata of a file.
#[derive(Debug, Clone)]
pub struct KeyValue {
    /// The key of the entry.
    pub key: String,
    /// The value of the entry.
    pub value: String,
}

/// The entries of custom metadata as pairs of character sequences.
pub open spec fn pairs(entries: Seq<KeyValue>) -> Seq<(Seq<char>, Seq<char>)> {
    Seq::new(entries.len(), |i: int| (entries[i].key@, entries[i].value@))
}

/// Custom metadata, where there is any, as pairs of character sequences.
pub open spec fn metadata_view(metadata: Option<Vec<KeyValue>>) -> Option<
    Seq<(Seq<char>, Seq<char>)>,
> {
    match metadata {
        None => None,
        Some(entries) => Some(pairs(entries@)),
    }
}

/// The field mapping that `default_ipc_fields` reads from a schema.
pub uninterp spec fn default_fields(schema: arrow_format::ipc::Schema) -> Seq<IpcField>;

/// The schema that `with_metadata` makes of a schema and custom metadata.
pub uninterp spec fn schema_with_metadata(
    schema: arrow_format::ipc::Schema,
    metadata: Option<Seq<(Seq<char>, Seq<char>)>>,
) -> arrow_format::ipc::Schema;

/// The flatbuffer encoding of the schema message of a schema.
pub uninterp spec fn schema_message_bytes(schema: arrow_format::ipc::Schema) -> Seq<u8>;

/// The flatbuffer encoding of the footer for a schema and two block tables.
pub uninterp spec fn footer_bytes(
    schema: arrow_format::ipc::Schema,
    dictionaries: Seq<Block>,
    record_batches: Seq<Block>,
) -> Seq<u8>;

/// Reads the field mapping off a schema: for each top-level field, in order,
/// the id of its `dictionary` entry if it has one. The result is a function of
/// the schema alone.
#[verifier::external_body]
pub(crate) fn default_ipc_fields(schema: &arrow_format::ipc::Schema) -> (fields: Vec<IpcField>)
    ensures
        fields@ == default_fields(*schema),
{
    schema.fields.iter().flatten().map(
        |field| IpcField { dictionary_id: field.dictionary.as_ref().map(|d| d.id) },
    ).collect()
}

/// Clones the schema and puts the given custom metadata in the place of the
/// schema's own, entry for entry; no metadata leaves the schema without any.
/// The result is a function of the two arguments.
#[verifier::external_body]
pub(crate) fn with_metadata(
    schema: &arrow_format::ipc::Schema,
    metadata: &Option<Vec<KeyValue>>,
) -> (result: arrow_format::ipc::Schema)
    ensures
        result == schema_with_metadata(*schema, metadata_view(*metadata)),
{
    let custom_metadata = metadata.as_ref().map(
        |m| m.iter().map(|kv| arrow_format::ipc::KeyValue {
            key: Some(kv.key.clone()),
            value: Some(kv.value.clone()),
        }).collect(),
    );
    arrow_format::ipc::Schema { custom_metadata, ..schema.clone() }
}

/// Encodes the schema message with `planus::Builder::finish`: a `Message` of
/// metadata version V5 whose header is the schema and whose body is empty.
/// The encoder is deterministic, so the bytes are a function of the schema.
#[verifier::external_body]
pub(crate) fn schema_to_bytes(schema: &arrow_format::ipc::Schema) -> (bytes: Vec<u8>)
    ensures
        bytes@ == schema_message_bytes(*schema),
{
    let message = arrow_format::ipc::Message {
        version: arrow_format::ipc::MetadataVersion::V5,
        header: Some(arrow_format::ipc::MessageHeader::Schema(Box::new(schema.clone()))),
        body_length: 0,
        custom_metadata: None,
    };
    arrow_format::ipc::planus::Builder::new().finish(&message, None).to_vec()
}

/// Encodes the footer with `planus::Builder::finish`: a `Footer` of metadata
/// version V5 with the schema and the two block tables, block for block in
/// the given order. The encoder is deterministic, so the bytes are a function
/// of the three arguments.
#[verifier::external_body]
pub(crate) fn encode_footer(
    schema: &arrow_format::ipc::Schema,
    dictionaries: &Vec<Block>,
    record_batches: &Vec<Block>,
) -> (bytes: Vec<u8>)
    ensures
        bytes@ == footer_bytes(*schema, dictionaries@, record_batches@),
{
    let block = |b: &Block| arrow_format::ipc::Block {
        offset: b.offset as i64,
        meta_data_length: b.metadata_length as i32,
        body_length: b.body_length as i64,
    };
    let root = arrow_format::ipc::Footer {
        version: arrow_format::ipc::MetadataVersion::V5,
        schema: Some(Box::new(schema.clone())),
        dictionaries: Some(dictionaries.iter().map(block).collect()),
        record_batches: Some(record_batches.iter().map(block).collect()),
        custom_metadata: None,
    };
    arrow_format::ipc::planus::Builder::new().finish(&root, None).to_vec()
}

} // verus!
