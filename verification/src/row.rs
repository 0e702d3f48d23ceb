//! A memory as one row of the `memories` table holds it, and the conversions both
//! ways: the tier by its canonical name, the embedding in its stored form, the metadata
//! as a JSON object of strings, the version as a signed 64-bit integer.
use vstd::prelude::*;
use std::collections::HashMap;
use crate::codec::{
    deserialize_embedding, lemma_blob_roundtrip, serialize_embedding, spec_deserialize,
    spec_serialize, BlobFault,
};
use crate::error::MemoError;
use crate::model::{lemma_type_str_roundtrip, spec_parse_type, spec_type_str, Memo, MemoType};
use crate::text::owned;

verus! {

/// A parse or print error of `serde_json`, carried as it is.
#[verifier::external_type_specification]
#[verifier::external_body]
pub struct ExJsonError(serde_json::Error);

/// The map of strings that a JSON text denotes, when it denotes one (a JSON object
/// whose members are all strings).
pub uninterp spec fn json_string_map(text: Seq<char>) -> Option<Map<String, String>>;

/// `serde_json::from_str` into a `HashMap<String, String>`: it succeeds exactly when the
/// text denotes such a map, and then gives that map.
#[verifier::external_body]
fn parse_string_map(text: &str) -> (r: Result<HashMap<String, String>, serde_json::Error>)
    ensures
        match r {
            Ok(m) => json_string_map(text@) == Some(m@),
            Err(_) => json_string_map(text@) is None,
        },
{
    serde_json::from_str(text)
}

/// `serde_json::to_string` of a `HashMap<String, String>`: it succeeds (serializing
/// strings and a map with string keys cannot fail), and the text it writes reads back as
/// the same map. Which text that is (the members follow the map's iteration order, which
/// varies from process to process) is not stated.
#[verifier::external_body]
fn print_string_map(m: &HashMap<String, String>) -> (r: Result<String, serde_json::Error>)
    ensures
        r is Ok,
        r matches Ok(t) ==> json_string_map(t@) == Some(m@),
{
    serde_json::to_string(m)
}

/// The message of a `serde_json` error (its `Display` output).
#[verifier::external_body]
fn json_error_text(e: &serde_json::Error) -> String {
    format!("{}", e)
}

/// A memory as a row of the `memories` table. `importance` is the bit pattern of the
/// single-precision value, which the column holds widened to double precision.
pub struct MemoRow {
    pub id: String,
    pub memo_type: String,
    pub content: String,
    pub embedding: Vec<u8>,
    pub metadata: String,
    pub importance: u32,
    pub version: i64,
    pub created_at: i64,
    pub updated_at: i64,
}

/// An optional embedding by its components.
pub open spec fn emb_view(e: Option<Vec<u32>>) -> Option<Seq<u32>> {
    match e {
        Some(v) => Some(v@),
        None => None,
    }
}

/// `row` stores `m`.
pub open spec fn row_holds(row: MemoRow, m: Memo) -> bool {
    &&& row.id@ == m.id@
    &&& row.memo_type@ == spec_type_str(m.memo_type)
    &&& row.content@ == m.content@
    &&& row.embedding@ == spec_serialize(emb_view(m.embedding))
    &&& json_string_map(row.metadata@) == Some(m.metadata@)
    &&& row.importance == m.importance
    &&& row.version == m.version as i64
    &&& row.created_at == m.created_at
    &&& row.updated_at == m.updated_at
}

/// Every column of `row` reads back: the embedding bytes, the metadata JSON and the
/// tier name.
pub open spec fn row_readable(row: MemoRow) -> bool {
    &&& spec_deserialize(row.embedding@) is Ok
    &&& json_string_map(row.metadata@) is Some
    &&& spec_parse_type(row.memo_type@) is Some
}

/// `m` is what `row` reads back as.
pub open spec fn row_reads_as(row: MemoRow, m: Memo) -> bool {
    &&& spec_deserialize(row.embedding@) == Ok::<Option<Seq<u32>>, BlobFault>(emb_view(m.embedding))
    &&& json_string_map(row.metadata@) == Some(m.metadata@)
    &&& spec_parse_type(row.memo_type@) == Some(m.memo_type)
    &&& m.id@ == row.id@
    &&& m.content@ == row.content@
    &&& m.importance == row.importance
    &&& m.version == row.version as u64
    &&& m.created_at == row.created_at
    &&& m.updated_at == row.updated_at
}

/// `a` and `b` hold the same memory (the metadata maps compared by their contents).
pub open spec fn same_memo(a: Memo, b: Memo) -> bool {
    &&& a.id@ == b.id@
    &&& a.memo_type == b.memo_type
    &&& a.content@ == b.content@
    &&& emb_view(a.embedding) == emb_view(b.embedding)
    &&& a.metadata@ == b.metadata@
    &&& a.importance == b.importance
    &&& a.version == b.version
    &&& a.created_at == b.created_at
    &&& a.updated_at == b.updated_at
}

impl MemoRow {
    /// The row that stores `m`; it is always made.
    pub fn from_memo(m: &Memo) -> (r: Result<MemoRow, MemoError>)
        ensures
            r is Ok,
            r matches Ok(row) ==> row_holds(row, *m),
    {
        let embedding = match &m.embedding {
            Some(v) => serialize_embedding(Some(v)),
            None => serialize_embedding(None),
        };
        let metadata = match print_string_map(&m.metadata) {
            Ok(t) => t,
            Err(e) => {
                return Err(MemoError::Serialization(json_error_text(&e)));
            },
        };
        Ok(MemoRow {
            id: owned(m.id.as_str()),
            memo_type: m.memo_type.as_str(),
            content: owned(m.content.as_str()),
            embedding,
            metadata,
            importance: m.importance,
            version: m.version as i64,
            created_at: m.created_at,
            updated_at: m.updated_at,
        })
    }

    /// The memory the row stores. Bytes that are not a stored embedding are
    /// `Serialization`; then metadata that is not a JSON object of strings is
    /// `Serialization`; then an unknown tier name is `InvalidParam`.
    pub fn into_memo(self) -> (r: Result<Memo, MemoError>)
        ensures
            spec_deserialize(self.embedding@) is Err ==> r matches Err(MemoError::Serialization(_)),
            spec_deserialize(self.embedding@) is Ok && json_string_map(self.metadata@) is None
                ==> r matches Err(MemoError::Serialization(_)),
            spec_deserialize(self.embedding@) is Ok && json_string_map(self.metadata@) is Some
                && spec_parse_type(self.memo_type@) is None ==> r matches Err(
                MemoError::InvalidParam(_),
            ),
            r is Ok <==> row_readable(self),
            r matches Ok(m) ==> row_reads_as(self, m),
    {
        let embedding = deserialize_embedding(&self.embedding)?;
        let metadata = match parse_string_map(self.metadata.as_str()) {
            Ok(m) => m,
            Err(e) => {
                return Err(MemoError::Serialization(json_error_text(&e)));
            },
        };
        let memo_type = MemoType::parse(self.memo_type.as_str())?;
        Ok(Memo {
            id: self.id,
            memo_type,
            content: self.content,
            embedding,
            metadata,
            importance: self.importance,
            version: self.version as u64,
            created_at: self.created_at,
            updated_at: self.updated_at,
        })
    }
}

/// What a row stores reads back as the same memory (for embeddings whose length fits
/// the 32-bit length field).
pub proof fn lemma_row_roundtrip(m: Memo, row: MemoRow)
    requires
        row_holds(row, m),
        m.embedding matches Some(e) ==> e@.len() <= u32::MAX,
    ensures
        row_readable(row),
        forall|back: Memo| row_reads_as(row, back) ==> same_memo(back, m),
{
    lemma_blob_roundtrip(emb_view(m.embedding));
    lemma_type_str_roundtrip(m.memo_type);
    let v = m.version;
    assert((v as i64) as u64 == v) by (bit_vector);
}

} // verus!
