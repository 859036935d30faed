//! Reading the documents the service answers with.

use vstd::prelude::*;
use serde_json::Value;
use crate::error::ClientError;
use crate::iterate::ResultPage;
use crate::json::{bool_of, elements_of, member_of, parsed, text_of, array_elements, bool_value, compile_path, member, only_node, parse_json, select, string_value};
use crate::token::{normalize_page_token, page_index_of};

verus! {

/// What a page comes to, given its items (absent when the document had
/// none, or not as an array) and its next-page member (outer `None`: no such
/// member; inner `None`: present but not a string). Without items the page is
/// malformed; a following page is read from its cursor, and a cursor of no
/// recognised form is a protocol violation. An empty items array is a page
/// like any other.
pub open spec fn page_outcome<R>(
    r: Result<ResultPage<R>, ClientError>,
    items: Option<Seq<R>>,
    next: Option<Option<Seq<char>>>,
) -> bool {
    match items {
        None => r matches Err(ClientError::DecodeError),
        Some(its) => match next {
            None => r matches Ok(p) && p.items@ == its && p.next is None,
            Some(None) => r matches Err(ClientError::DecodeError),
            Some(Some(t)) => match page_index_of(t) {
                Some(n) => if n <= u64::MAX {
                    r matches Ok(p) && p.items@ == its && p.next == Some(n as u64)
                } else {
                    r matches Err(ClientError::ProtocolError)
                },
                None => r matches Err(ClientError::ProtocolError),
            },
        },
    }
}

/// The items array of a page document, as serde_json reads it.
pub open spec fn items_of(doc: Value) -> Option<Seq<Value>> {
    match member_of(doc, "items"@) {
        Some(a) => elements_of(a),
        None => None,
    }
}

/// The next-page member of a page document, as serde_json reads it.
pub open spec fn next_of(doc: Value) -> Option<Option<Seq<char>>> {
    match member_of(doc, "next"@) {
        Some(n) => Some(text_of(n)),
        None => None,
    }
}

/// Builds a page from what its document held; see `page_outcome`.
pub fn page_from_parts<R>(items: Option<Vec<R>>, next: Option<Option<String>>) -> (r: Result<
    ResultPage<R>,
    ClientError,
>)
    ensures
        page_outcome(
            r,
            match items {
                Some(v) => Some(v@),
                None => None,
            },
            match next {
                Some(Some(t)) => Some(Some(t@)),
                Some(None) => Some(None),
                None => None,
            },
        ),
{
    match items {
        None => Err(ClientError::DecodeError),
        Some(items) => match next {
            None => Ok(ResultPage { items, next: None }),
            Some(None) => Err(ClientError::DecodeError),
            Some(Some(t)) => match normalize_page_token(t.as_str()) {
                Ok(n) => Ok(ResultPage { items, next: Some(n) }),
                Err(e) => Err(e),
            },
        },
    }
}

/// Reads a page document: its `items` array and its optional `next` cursor.
/// Text that is not JSON is a decode error.
pub fn decode_page(text: &str) -> (r: Result<ResultPage<Value>, ClientError>)
    ensures
        parsed(text@) is None ==> r matches Err(ClientError::DecodeError),
        parsed(text@) matches Some(doc) ==> page_outcome(r, items_of(doc), next_of(doc)),
{
    let doc = match parse_json(text) {
        Ok(v) => v,
        Err(_) => {
            return Err(ClientError::DecodeError);
        },
    };
    let items = match member(&doc, "items") {
        Some(a) => array_elements(a),
        None => None,
    };
    let next = match member(&doc, "next") {
        Some(n) => Some(string_value(n)),
        None => None,
    };
    page_from_parts(items, next)
}

/// What reading a descriptive document from `text` comes to: the document
/// serde_json reads from it, or a decode error when it reads none.
pub open spec fn document_outcome(text: Seq<char>, r: Result<Value, ClientError>) -> bool {
    match parsed(text) {
        None => r matches Err(ClientError::DecodeError),
        Some(doc) => r == Ok::<Value, ClientError>(doc),
    }
}

/// Reading the same description twice (a search's, say, while its session
/// lives and the service answers with the same text) gives equal documents.
pub proof fn lemma_document_reads_agree(
    text: Seq<char>,
    first: Result<Value, ClientError>,
    second: Result<Value, ClientError>,
)
    requires
        document_outcome(text, first),
        document_outcome(text, second),
    ensures
        first == second,
{
}

/// Reads a descriptive document (a search's description, the service's
/// self-description, a container's metadata). Text that is not JSON is a
/// decode error.
pub fn decode_document(text: &str) -> (r: Result<Value, ClientError>)
    ensures
        document_outcome(text@, r),
{
    match parse_json(text) {
        Ok(v) => Ok(v),
        Err(_) => Err(ClientError::DecodeError),
    }
}

/// The `withAuthentication` flag of the service's self-description, when it
/// holds a boolean there.
pub fn requires_authentication(about: &Value) -> (r: Option<bool>)
    ensures
        r == match member_of(*about, "withAuthentication"@) {
            Some(m) => bool_of(m),
            None => None,
        },
{
    match member(about, "withAuthentication") {
        Some(v) => bool_value(v),
        None => None,
    }
}

/// The single node that the path `$.label` selects in a container's
/// metadata; a decode error when it selects none or several.
pub fn metadata_label(metadata: &Value) -> (r: Result<Value, ClientError>)
    ensures
        r matches Err(e) ==> e == ClientError::DecodeError,
{
    let path = match compile_path("$.label") {
        Ok(p) => p,
        Err(_) => {
            return Err(ClientError::DecodeError);
        },
    };
    let nodes = select(&path, metadata);
    match only_node(&nodes) {
        Some(v) => Ok(v),
        None => Err(ClientError::DecodeError),
    }
}

} // verus!
