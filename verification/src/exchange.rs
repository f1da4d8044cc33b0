//! What one request does to the lock, and what it is answered with.

use crate::lock::LockState;
use crate::request::{credential_accepted, dispatched, lock_token, names, unlock_token};
use crate::response::{
    lemma_error_is_shown, page, response, DocumentsView, BENIGN_MARKER, ERROR_MARKER, STATUS_LINE,
};
use crate::text::{first_occurrence, occurs_at};
use vstd::prelude::*;
use vstd::string::StringSliceAdditionalSpecFns;

verus! {

/// The lock state that a request leaves behind, and the response to it.
pub struct Exchange {
    pub state: LockState,
    pub response: Seq<u8>,
}

/// The request `req` is dispatched against `state`, and the response is
/// rendered from the state that this leaves behind.
pub open spec fn exchanged(
    req: Seq<u8>,
    secret: Seq<u8>,
    state: LockState,
    documents: DocumentsView,
) -> Exchange {
    let outcome = dispatched(req, secret, state);
    Exchange {
        state: outcome.state,
        response: response(outcome.state, outcome.has_error, documents),
    }
}

/// A lock request that submits the secret locks the device, whatever the
/// state was, and is answered with the locked document as it is.
pub proof fn lemma_lock_request_locks(
    req: Seq<u8>,
    secret: Seq<u8>,
    state: LockState,
    documents: DocumentsView,
)
    requires
        credential_accepted(req, lock_token(), secret),
        !names(req, unlock_token()),
    ensures
        exchanged(req, secret, state, documents).state == LockState::Locked,
        exchanged(req, secret, state, documents).response == STATUS_LINE.spec_bytes()
            + documents.locked,
{
}

/// An unlock request that submits the secret unlocks the device, whatever
/// the state was, and is answered with the unlocked document as it is.
pub proof fn lemma_unlock_request_unlocks(
    req: Seq<u8>,
    secret: Seq<u8>,
    state: LockState,
    documents: DocumentsView,
)
    requires
        credential_accepted(req, unlock_token(), secret),
    ensures
        exchanged(req, secret, state, documents).state == LockState::Unlocked,
        exchanged(req, secret, state, documents).response == STATUS_LINE.spec_bytes()
            + documents.unlocked,
{
}

/// A request that names a control token but submits no credential equal to
/// the secret leaves the lock state as it was, and is answered with the
/// document of that state with its markers replaced.
pub proof fn lemma_rejected_request_keeps_state(
    req: Seq<u8>,
    secret: Seq<u8>,
    state: LockState,
    documents: DocumentsView,
)
    requires
        names(req, lock_token()) || names(req, unlock_token()),
        !credential_accepted(req, lock_token(), secret),
        !credential_accepted(req, unlock_token(), secret),
    ensures
        dispatched(req, secret, state).has_error,
        exchanged(req, secret, state, documents).state == state,
        exchanged(req, secret, state, documents).response == response(state, true, documents),
{
}

/// The response to such a request shows the error: where the document has
/// its first benign marker, the response has the error marker, and so
/// differs from the response to a request that is in order.
pub proof fn lemma_rejected_request_is_marked(
    req: Seq<u8>,
    secret: Seq<u8>,
    state: LockState,
    documents: DocumentsView,
    k: int,
)
    requires
        names(req, lock_token()) || names(req, unlock_token()),
        !credential_accepted(req, lock_token(), secret),
        !credential_accepted(req, unlock_token(), secret),
        first_occurrence(page(state, documents), BENIGN_MARKER.spec_bytes()) == Some(k),
    ensures
        occurs_at(
            exchanged(req, secret, state, documents).response,
            ERROR_MARKER.spec_bytes(),
            STATUS_LINE.spec_bytes().len() + k,
        ),
        exchanged(req, secret, state, documents).response != response(state, false, documents),
{
    lemma_error_is_shown(state, documents, k);
}

/// The same request twice: the second leaves the lock state as the first
/// left it, and gets the same response.
pub proof fn lemma_repeated_request(
    req: Seq<u8>,
    secret: Seq<u8>,
    state: LockState,
    documents: DocumentsView,
)
    ensures
        exchanged(
            req,
            secret,
            exchanged(req, secret, state, documents).state,
            documents,
        ) == exchanged(req, secret, state, documents),
{
}

/// A correct lock request twice, or a correct unlock request twice: both
/// are answered with the plain document, and the second changes nothing.
pub proof fn lemma_repeated_correct_request(
    req: Seq<u8>,
    secret: Seq<u8>,
    state: LockState,
    documents: DocumentsView,
)
    requires
        (credential_accepted(req, lock_token(), secret) && !names(req, unlock_token()))
            || credential_accepted(req, unlock_token(), secret),
    ensures
        !dispatched(req, secret, state).has_error,
        !dispatched(req, secret, dispatched(req, secret, state).state).has_error,
        dispatched(req, secret, dispatched(req, secret, state).state).state == dispatched(
            req,
            secret,
            state,
        ).state,
{
}

/// A request without a GET line, or whose GET line names neither control
/// token, leaves the lock state as it was and is answered with the document
/// of that state as it is.
pub proof fn lemma_unrecognized_request(
    req: Seq<u8>,
    secret: Seq<u8>,
    state: LockState,
    documents: DocumentsView,
)
    requires
        !names(req, lock_token()),
        !names(req, unlock_token()),
    ensures
        exchanged(req, secret, state, documents).state == state,
        exchanged(req, secret, state, documents).response == STATUS_LINE.spec_bytes() + page(
            state,
            documents,
        ),
{
}

} // verus!
