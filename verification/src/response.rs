//! Rendering the answer to a request: a fixed status line, then the document
//! that belongs to the current lock state.

use crate::lock::LockState;
use crate::text::{
    first_occurrence, lemma_first_occurrence, lemma_substituted_at_first, occurs_at, substitute,
    substituted,
};
use vstd::prelude::*;
use vstd::string::StringSliceAdditionalSpecFns;

verus! {

/// The status line and the empty line after it: the whole header of every
/// response.
pub const STATUS_LINE: &'static str = "HTTP/1.0 200 OK\r\n\r\n";

/// The marker that the documents carry where a request was in order.
pub const BENIGN_MARKER: &'static str = "no-error";

/// The marker that stands in its place where the request was in error.
pub const ERROR_MARKER: &'static str = "error";

/// The two documents that the endpoint serves.
#[derive(Clone, Copy, Debug)]
pub struct Documents<'a> {
    /// Shown while the device is locked.
    pub locked: &'a str,
    /// Shown while the device is unlocked.
    pub unlocked: &'a str,
}

/// The documents as bytes.
pub struct DocumentsView {
    pub locked: Seq<u8>,
    pub unlocked: Seq<u8>,
}

impl<'a> View for Documents<'a> {
    type V = DocumentsView;

    open spec fn view(&self) -> DocumentsView {
        DocumentsView { locked: self.locked.spec_bytes(), unlocked: self.unlocked.spec_bytes() }
    }
}

/// The document that belongs to `state`.
pub open spec fn page(state: LockState, documents: DocumentsView) -> Seq<u8> {
    match state {
        LockState::Locked => documents.locked,
        LockState::Unlocked => documents.unlocked,
    }
}

/// The document as it is sent: as it is, or with every benign marker
/// replaced by the error marker where the request was in error.
pub open spec fn body(state: LockState, has_error: bool, documents: DocumentsView) -> Seq<u8> {
    if has_error {
        substituted(
            page(state, documents),
            BENIGN_MARKER.spec_bytes(),
            ERROR_MARKER.spec_bytes(),
        )
    } else {
        page(state, documents)
    }
}

/// The whole response: the status line, then the body.
pub open spec fn response(state: LockState, has_error: bool, documents: DocumentsView) -> Seq<
    u8,
> {
    STATUS_LINE.spec_bytes() + body(state, has_error, documents)
}

/// The bytes of the two markers.
pub proof fn lemma_marker_bytes()
    ensures
        BENIGN_MARKER.spec_bytes() == seq![110u8, 111u8, 45u8, 101u8, 114u8, 114u8, 111u8, 114u8],
        ERROR_MARKER.spec_bytes() == seq![101u8, 114u8, 114u8, 111u8, 114u8],
{
    reveal_strlit("no-error");
    reveal_strlit("error");
    assert(BENIGN_MARKER.is_ascii());
    assert(ERROR_MARKER.is_ascii());
}

/// A response to a request in error shows it wherever the document has a
/// benign marker: at the first such place the error marker stands instead,
/// so the body differs from the document.
pub proof fn lemma_error_is_shown(state: LockState, documents: DocumentsView, k: int)
    requires
        first_occurrence(page(state, documents), BENIGN_MARKER.spec_bytes()) == Some(k),
    ensures
        occurs_at(body(state, true, documents), ERROR_MARKER.spec_bytes(), k),
        occurs_at(
            response(state, true, documents),
            ERROR_MARKER.spec_bytes(),
            STATUS_LINE.spec_bytes().len() + k,
        ),
        body(state, true, documents) != page(state, documents),
        response(state, true, documents) != response(state, false, documents),
{
    lemma_marker_bytes();
    let doc = page(state, documents);
    let benign = BENIGN_MARKER.spec_bytes();
    let error = ERROR_MARKER.spec_bytes();
    let head = STATUS_LINE.spec_bytes();
    lemma_substituted_at_first(doc, benign, error, k);
    lemma_first_occurrence(doc, benign);
    let marked = body(state, true, documents);
    let shown = response(state, true, documents);
    assert(shown.subrange(head.len() + k, head.len() + k + error.len()) =~= marked.subrange(
        k,
        k + error.len(),
    ));
}

/// Renders the response for the current lock state.
pub fn render(state: LockState, has_error: bool, documents: &Documents<'_>) -> (r: Vec<u8>)
    ensures
        r@ == response(state, has_error, documents@),
{
    let doc: &[u8] = match state {
        LockState::Locked => documents.locked.as_bytes(),
        LockState::Unlocked => documents.unlocked.as_bytes(),
    };
    let mut out: Vec<u8> = Vec::new();
    out.extend_from_slice(STATUS_LINE.as_bytes());
    if has_error {
        let marked = substitute(doc, BENIGN_MARKER.as_bytes(), ERROR_MARKER.as_bytes());
        out.extend_from_slice(marked.as_slice());
    } else {
        out.extend_from_slice(doc);
    }
    out
}

} // verus!
