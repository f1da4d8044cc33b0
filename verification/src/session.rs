//! The state of one accepted connection: the bytes received so far and the
//! one-shot record of the control line.

use crate::lock::LockState;
use crate::request::{dispatch, dispatched, get_line, HEADER_END};
use crate::text::{contains, occurs_in};
use vstd::prelude::*;
use vstd::string::StringSliceAdditionalSpecFns;

verus! {

/// How many request bytes a session keeps. What arrives beyond them is not
/// stored.
pub const REQUEST_CAPACITY: usize = 1024;

/// The per-connection state. It lives as long as the serving loop and is
/// reset, not rebuilt, between connections.
pub struct ConnectionSession {
    buffer: Vec<u8>,
    processed: bool,
    has_error: bool,
}

/// A session as the contracts see it.
pub struct SessionView {
    /// The request bytes accumulated so far.
    pub bytes: Seq<u8>,
    /// The control line has been dispatched; it is not dispatched again.
    pub processed: bool,
    /// The dispatched control line carried a bad or missing credential.
    pub has_error: bool,
}

/// A session on which nothing has arrived.
pub open spec fn fresh() -> SessionView {
    SessionView { bytes: Seq::empty(), processed: false, has_error: false }
}

/// How many more bytes the session can keep.
pub open spec fn free_space(session: SessionView) -> int {
    if session.bytes.len() < REQUEST_CAPACITY {
        REQUEST_CAPACITY - session.bytes.len()
    } else {
        0
    }
}

/// What a read leaves behind.
pub struct Reception {
    pub session: SessionView,
    /// The lock state after the read.
    pub state: LockState,
    /// The header block is complete: reading stops.
    pub complete: bool,
}

/// The effect of receiving `data`. As much of it as fits is appended. If the
/// control line has not been dispatched yet and the accumulated bytes now
/// hold a GET line, they are dispatched, once. The header block is complete
/// when the accumulated bytes hold an empty line.
pub open spec fn received(
    session: SessionView,
    data: Seq<u8>,
    secret: Seq<u8>,
    state: LockState,
) -> Reception {
    let kept = if data.len() <= free_space(session) {
        data
    } else {
        data.subrange(0, free_space(session))
    };
    let bytes = session.bytes + kept;
    let fires = !session.processed && get_line(bytes) is Some;
    let outcome = dispatched(bytes, secret, state);
    Reception {
        session: SessionView {
            bytes,
            processed: session.processed || fires,
            has_error: if fires {
                outcome.has_error
            } else {
                session.has_error
            },
        },
        state: if fires {
            outcome.state
        } else {
            state
        },
        complete: occurs_in(bytes, HEADER_END.spec_bytes()),
    }
}

/// The control line is dispatched once: after that, whatever is read leaves
/// the lock state and the error flag as they are.
pub proof fn lemma_dispatched_once(
    session: SessionView,
    data: Seq<u8>,
    secret: Seq<u8>,
    state: LockState,
)
    requires
        session.processed,
    ensures
        received(session, data, secret, state).state == state,
        received(session, data, secret, state).session.processed,
        received(session, data, secret, state).session.has_error == session.has_error,
{
}

/// What is kept is what was there, followed by a prefix of what arrived,
/// and never more than the capacity.
pub proof fn lemma_received_bytes(
    session: SessionView,
    data: Seq<u8>,
    secret: Seq<u8>,
    state: LockState,
)
    requires
        session.bytes.len() <= REQUEST_CAPACITY,
    ensures
        received(session, data, secret, state).session.bytes.len() <= REQUEST_CAPACITY,
        received(session, data, secret, state).session.bytes.len() == if session.bytes.len()
            + data.len() <= REQUEST_CAPACITY {
            session.bytes.len() + data.len()
        } else {
            REQUEST_CAPACITY as nat
        },
        received(session, data, secret, state).session.bytes.subrange(
            0,
            session.bytes.len() as int,
        ) == session.bytes,
{
}

impl View for ConnectionSession {
    type V = SessionView;

    closed spec fn view(&self) -> SessionView {
        SessionView { bytes: self.buffer@, processed: self.processed, has_error: self.has_error }
    }
}

impl ConnectionSession {
    /// A session on which nothing has arrived, with room for a whole
    /// request.
    pub fn new() -> (session: ConnectionSession)
        ensures
            session@ == fresh(),
    {
        ConnectionSession {
            buffer: Vec::with_capacity(REQUEST_CAPACITY),
            processed: false,
            has_error: false,
        }
    }

    /// Makes the session ready for the next connection. The buffer is
    /// emptied, not released.
    pub fn reset(&mut self)
        ensures
            final(self)@ == fresh(),
    {
        self.buffer.clear();
        self.processed = false;
        self.has_error = false;
    }

    /// The request bytes accumulated so far.
    pub fn bytes(&self) -> (bytes: &[u8])
        ensures
            bytes@ == self@.bytes,
    {
        self.buffer.as_slice()
    }

    /// Whether the control line has been dispatched.
    pub fn processed(&self) -> (processed: bool)
        ensures
            processed == self@.processed,
    {
        self.processed
    }

    /// Whether the dispatched control line was in error.
    pub fn has_error(&self) -> (has_error: bool)
        ensures
            has_error == self@.has_error,
    {
        self.has_error
    }

    /// How many more bytes the session can keep.
    pub fn free(&self) -> (free: usize)
        ensures
            free == free_space(self@),
    {
        if self.buffer.len() < REQUEST_CAPACITY {
            REQUEST_CAPACITY - self.buffer.len()
        } else {
            0
        }
    }

    /// Takes in what a read returned and says whether the header block is
    /// complete.
    pub fn receive(&mut self, data: &[u8], device_lock: &mut LockState, secret: &str) -> (complete:
        bool)
        ensures
            final(self)@ == received(
                old(self)@,
                data@,
                secret.spec_bytes(),
                *old(device_lock),
            ).session,
            *final(device_lock) == received(
                old(self)@,
                data@,
                secret.spec_bytes(),
                *old(device_lock),
            ).state,
            complete == received(
                old(self)@,
                data@,
                secret.spec_bytes(),
                *old(device_lock),
            ).complete,
    {
        let free = self.free();
        let kept = if data.len() <= free {
            data
        } else {
            &data[0..free]
        };
        let ghost wanted = if data@.len() <= free_space(old(self)@) {
            data@
        } else {
            data@.subrange(0, free_space(old(self)@))
        };
        self.buffer.extend_from_slice(kept);
        assert(self.buffer@ == old(self)@.bytes + wanted);
        if !self.processed {
            match dispatch(self.buffer.as_slice(), device_lock, secret) {
                Some(has_error) => {
                    self.has_error = has_error;
                    self.processed = true;
                },
                None => {},
            }
        }
        contains(self.buffer.as_slice(), HEADER_END.as_bytes())
    }
}

} // verus!
