//! The record index: which records the node persists, and the key and
//! bytes under which a record is persisted and read back.
use vstd::prelude::*;
use crate::models::{Record, RecordView};
use crate::text::str_equals;
use crate::wire::{
    encode_record, record_from_slice, record_bytes, record_encodable, lemma_record_bytes_unique,
    prefix_at, DecodeError, EncodeError,
};

verus! {

/// What the index does with a record, by its type.
#[derive(Debug, Clone, Copy, PartialEq, Eq, Structural)]
pub enum IndexAction {
    /// An A record: persisted and passed on to the DNS server.
    PersistA,
    /// An AAAA or CNAME record: known but not indexed.
    NotIndexed,
    /// A record of a type the node does not know.
    UnknownType,
}

/// The action for a record type.
pub open spec fn index_action_for(record_type: Seq<char>) -> IndexAction {
    if record_type == "A"@ {
        IndexAction::PersistA
    } else if record_type == "AAAA"@ || record_type == "CNAME"@ {
        IndexAction::NotIndexed
    } else {
        IndexAction::UnknownType
    }
}

/// Chooses what the index does with a record of type `record_type`.
pub fn index_action(record_type: &str) -> (r: IndexAction)
    ensures
        r == index_action_for(record_type@),
        (r == IndexAction::PersistA) <==> record_type@ == "A"@,
        (r == IndexAction::NotIndexed) <==> (record_type@ == "AAAA"@ || record_type@ == "CNAME"@),
        (r == IndexAction::UnknownType) <==> (record_type@ != "A"@ && record_type@ != "AAAA"@
            && record_type@ != "CNAME"@),
{
    proof {
        lemma_index_action_by_type(record_type@);
    }
    if str_equals(record_type, "A") {
        IndexAction::PersistA
    } else if str_equals(record_type, "AAAA") || str_equals(record_type, "CNAME") {
        IndexAction::NotIndexed
    } else {
        IndexAction::UnknownType
    }
}

/// The key and the bytes under which `record` is persisted: its host, and
/// its layout. Fails exactly when the record has no layout.
pub fn index_entry(record: &Record) -> (r: Result<(String, Vec<u8>), EncodeError>)
    ensures
        r is Ok <==> record_encodable(record@),
        r matches Ok((key, bytes)) ==> key@ == record.host@ && bytes@ == record_bytes(record@),
{
    let bytes = encode_record(record)?;
    Ok((record.host.clone(), bytes))
}

/// Reads back a persisted record: the bytes must hold exactly one record.
pub fn read_indexed(bytes: &[u8]) -> (r: Result<Record, DecodeError>)
    ensures
        r matches Ok(rec) ==> record_encodable(rec@) && bytes@ == record_bytes(rec@),
        forall|rv: RecordView|
            record_encodable(rv) && bytes@ == #[trigger] record_bytes(rv) ==> (r matches Ok(rec)
                && rec@ == rv),
{
    record_from_slice(bytes)
}

/// A persisted record reads back as itself: the bytes persisted for an
/// encodable record are the layout of that record and of no other.
pub proof fn lemma_index_read_back(written: RecordView, read: RecordView)
    requires
        record_encodable(written),
        record_encodable(read),
        record_bytes(written) == record_bytes(read),
    ensures
        written == read,
{
    let b = record_bytes(written);
    assert(b.subrange(0, b.len() as int) =~= b);
    assert(prefix_at(b, 0, record_bytes(written)));
    lemma_record_bytes_unique(b, written, read);
}

/// Only A records are persisted; AAAA and CNAME records are known but not
/// indexed; every other type is unknown.
pub proof fn lemma_index_action_by_type(record_type: Seq<char>)
    ensures
        (index_action_for(record_type) == IndexAction::PersistA) <==> record_type == "A"@,
        (index_action_for(record_type) == IndexAction::NotIndexed) <==> (record_type == "AAAA"@
            || record_type == "CNAME"@),
        (index_action_for(record_type) == IndexAction::UnknownType) <==> (record_type != "A"@
            && record_type != "AAAA"@ && record_type != "CNAME"@),
{
    reveal_strlit("A");
    reveal_strlit("AAAA");
    reveal_strlit("CNAME");
    assert("A"@ != "AAAA"@ && "A"@ != "CNAME"@) by {
        assert("A"@.len() != "AAAA"@.len());
        assert("A"@.len() != "CNAME"@.len());
    }
}

} // verus!
