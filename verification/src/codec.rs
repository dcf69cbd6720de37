//! Documents as record payloads: one JSON object per document, written and
//! read by serde_json.

use vstd::prelude::*;
use crate::document::{
    document_of, lemma_object_spells_document, object_of_document, Document, DocumentView,
};
use crate::error::StoreError;
use crate::json::{json_object, json_text, parse_members, write_members};
use crate::log::NEWLINE;

verus! {

/// The document that a payload spells: the bytes are the text of one JSON
/// object, and that object is a document. `None` for every other payload.
pub open spec fn decoded(payload: Seq<u8>) -> Option<DocumentView> {
    match json_object(payload) {
        Some(object) => document_of(object),
        None => None,
    }
}

/// The payload that is written for a document: the JSON text of its object.
/// `None` where serde_json refuses to write it.
pub open spec fn encoding(document: DocumentView) -> Option<Seq<u8>> {
    json_text(object_of_document(document))
}

/// Whether `payload` can stand in the log for the document `document`: it
/// holds no newline, so that it is one record, and it spells the document.
pub open spec fn is_payload_of(payload: Seq<u8>, document: DocumentView) -> bool {
    &&& !payload.contains(NEWLINE)
    &&& decoded(payload) == Some(document)
}

/// Serializes the whole document (identifier, revision marker and fields)
/// as one JSON object. What comes back on success is a payload of the
/// document. Fails with `Io` exactly where serde_json refuses to write.
pub fn encode_document(document: &Document) -> (r: Result<Vec<u8>, StoreError>)
    ensures
        match encoding(document@) {
            Some(text) => r matches Ok(payload) && payload@ == text,
            None => r == Err::<Vec<u8>, StoreError>(StoreError::Io),
        },
        r matches Ok(payload) ==> is_payload_of(payload@, document@),
{
    let members = document.to_members();
    proof {
        lemma_object_spells_document(document@);
    }
    match write_members(&members) {
        Ok(payload) => Ok(payload),
        Err(_) => Err(StoreError::Io),
    }
}

/// Reads a payload back into the document that it spells, or `None` where
/// it spells none.
pub fn decode_document(payload: &[u8]) -> (r: Option<Document>)
    ensures
        match decoded(payload@) {
            Some(spelled) => r matches Some(document) && document@ == spelled,
            None => r is None,
        },
{
    match parse_members(payload) {
        Ok(members) => Document::from_members(members),
        Err(_) => None,
    }
}

} // verus!
