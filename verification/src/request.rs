//! The one request shape that the control endpoint understands: a GET line
//! whose path carries a control token followed by the submitted credential.

use crate::lock::LockState;
use crate::text::{
    contains, equal, find, first_occurrence, index_of, lemma_first_occurrence,
    lemma_first_occurrence_is, lemma_next_index_of, matches_at, next_index_of, occurs_at,
    occurs_in,
};
use vstd::prelude::*;
use vstd::string::StringSliceAdditionalSpecFns;

verus! {

/// The method that opens the control line.
pub const METHOD: &'static str = "GET";

/// The path prefix of a lock request; the credential follows it.
pub const LOCK_PASS_TOKEN: &'static str = "/lock?password=";

/// The path prefix of an unlock request; the credential follows it.
pub const UNLOCK_PASS_TOKEN: &'static str = "/unlock?password=";

/// The empty line that ends a header block.
pub const HEADER_END: &'static str = "\r\n\r\n";

/// Ends a line.
pub const LINE_FEED: u8 = 0x0a;

/// Belongs to the line ending when it stands right before a line feed.
pub const CARRIAGE_RETURN: u8 = 0x0d;

/// Separates the tokens of a line.
pub const SPACE: u8 = 0x20;

/// A line begins at `i`: at the start of the request, or right after a line
/// feed. Nothing begins at the end of the request.
pub open spec fn is_line_start(req: Seq<u8>, i: int) -> bool {
    0 <= i < req.len() && (i == 0 || req[i - 1] == LINE_FEED)
}

/// Where the text of the line that begins at `i` ends: at the next line
/// feed, or before the carriage return that precedes it, or at the end of
/// the request when the line is not terminated yet.
pub open spec fn line_end(req: Seq<u8>, i: int) -> int {
    let stop = next_index_of(req, LINE_FEED, i);
    if stop < req.len() && i < stop && req[stop - 1] == CARRIAGE_RETURN {
        stop - 1
    } else {
        stop
    }
}

/// The text of the line that begins at `i`, without its line ending.
pub open spec fn line_at(req: Seq<u8>, i: int) -> Seq<u8> {
    req.subrange(i, line_end(req, i))
}

/// A line begins at `i` and opens with the GET method.
pub open spec fn is_get_line(req: Seq<u8>, i: int) -> bool {
    is_line_start(req, i) && occurs_at(line_at(req, i), METHOD.spec_bytes(), 0)
}

/// Where the first GET line at or after `from` begins.
pub open spec fn get_line_from(req: Seq<u8>, from: int) -> Option<int>
    decreases req.len() - from,
{
    if from >= req.len() {
        None
    } else if is_get_line(req, from) {
        Some(from)
    } else {
        get_line_from(req, from + 1)
    }
}

/// The text of the first line of `req` that opens with the GET method.
pub open spec fn get_line(req: Seq<u8>) -> Option<Seq<u8>> {
    match get_line_from(req, 0) {
        Some(i) => Some(line_at(req, i)),
        None => None,
    }
}

/// The credential submitted on `line` under `prefix`: what follows the
/// first occurrence of `prefix`, up to the next space or the end of the
/// line. A prefix that holds a space lies within no token, so nothing is
/// submitted under it.
pub open spec fn credential(line: Seq<u8>, prefix: Seq<u8>) -> Option<Seq<u8>> {
    if prefix.contains(SPACE) {
        None
    } else {
        match first_occurrence(line, prefix) {
            Some(k) => Some(
                line.subrange(k + prefix.len(), next_index_of(line, SPACE, k + prefix.len())),
            ),
            None => None,
        }
    }
}

/// The credential that the GET line of `req` submits under `prefix`.
pub open spec fn submitted_credential(req: Seq<u8>, prefix: Seq<u8>) -> Option<Seq<u8>> {
    match get_line(req) {
        Some(line) => credential(line, prefix),
        None => None,
    }
}

/// The request submits exactly `secret` under `prefix`.
pub open spec fn credential_accepted(req: Seq<u8>, prefix: Seq<u8>, secret: Seq<u8>) -> bool {
    submitted_credential(req, prefix) == Some(secret)
}

/// `t..u` is a token of `line`: a run without spaces that cannot be
/// extended on either side.
pub open spec fn is_token(line: Seq<u8>, t: int, u: int) -> bool {
    &&& 0 <= t <= u <= line.len()
    &&& (t == 0 || line[t - 1] == SPACE)
    &&& (u == line.len() || line[u] == SPACE)
    &&& forall|j: int| t <= j < u ==> line[j] != SPACE
}

/// The token `t..u` of `line` holds `prefix`.
pub open spec fn token_holds(line: Seq<u8>, t: int, u: int, prefix: Seq<u8>) -> bool {
    is_token(line, t, u) && occurs_in(line.subrange(t, u), prefix)
}

/// Where the token around `k` begins.
pub open spec fn token_start(line: Seq<u8>, k: int) -> int
    decreases k,
{
    if k <= 0 {
        0
    } else if line[k - 1] == SPACE {
        k
    } else {
        token_start(line, k - 1)
    }
}

proof fn lemma_token_start(line: Seq<u8>, k: int)
    requires
        0 <= k <= line.len(),
    ensures
        0 <= token_start(line, k) <= k,
        token_start(line, k) == 0 || line[token_start(line, k) - 1] == SPACE,
        forall|j: int| token_start(line, k) <= j < k ==> line[j] != SPACE,
    decreases k,
{
    if k > 0 && line[k - 1] != SPACE {
        lemma_token_start(line, k - 1);
    }
}

proof fn lemma_occurs_at_within(line: Seq<u8>, t: int, u: int, prefix: Seq<u8>, k: int)
    requires
        0 <= t <= u <= line.len(),
        0 <= k,
        k + prefix.len() <= u - t,
    ensures
        occurs_at(line.subrange(t, u), prefix, k) == occurs_at(line, prefix, t + k),
{
    assert(line.subrange(t, u).subrange(k, k + prefix.len()) =~= line.subrange(
        t + k,
        t + k + prefix.len(),
    ));
}

/// The credential is taken from the first token of the line that holds the
/// prefix, and is all that follows the prefix within that token. Where no
/// token holds the prefix there is no credential.
pub proof fn lemma_credential_is_in_first_token(line: Seq<u8>, prefix: Seq<u8>)
    ensures
        match credential(line, prefix) {
            Some(c) => exists|t: int, u: int|
                {
                    &&& #[trigger] token_holds(line, t, u, prefix)
                    &&& forall|t2: int, u2: int| #[trigger]
                        token_holds(line, t2, u2, prefix) ==> t <= t2
                    &&& first_occurrence(line.subrange(t, u), prefix) matches Some(k) && c
                        == line.subrange(t + k + prefix.len(), u)
                },
            None => forall|t: int, u: int| !token_holds(line, t, u, prefix),
        },
{
    let m = prefix.len() as int;
    lemma_first_occurrence(line, prefix);
    if prefix.contains(SPACE) {
        // A token has no space, so nothing with a space stands in it.
        assert forall|t: int, u: int| !token_holds(line, t, u, prefix) by {
            if token_holds(line, t, u, prefix) {
                lemma_first_occurrence(line.subrange(t, u), prefix);
            }
        }
    } else if first_occurrence(line, prefix) is None {
        // What stands in a token stands in the line.
        assert forall|t: int, u: int| !token_holds(line, t, u, prefix) by {
            if token_holds(line, t, u, prefix) {
                let sub = line.subrange(t, u);
                lemma_first_occurrence(sub, prefix);
                lemma_occurs_at_within(line, t, u, prefix, first_occurrence(sub, prefix).unwrap());
            }
        }
    } else {
        // The token around the first occurrence in the line.
        let k0 = first_occurrence(line, prefix).unwrap();
        let t0 = token_start(line, k0);
        let u0 = next_index_of(line, SPACE, k0 + m);
        lemma_token_start(line, k0);
        lemma_next_index_of(line, SPACE, k0 + m);
        assert forall|j: int| t0 <= j < u0 implies line[j] != SPACE by {
            if k0 <= j < k0 + m {
                assert(prefix.contains(prefix[j - k0]));
            }
        }
        let sub0 = line.subrange(t0, u0);
        lemma_occurs_at_within(line, t0, u0, prefix, k0 - t0);
        assert forall|j: int| 0 <= j < k0 - t0 implies !occurs_at(sub0, prefix, j) by {
            if j + m <= u0 - t0 {
                lemma_occurs_at_within(line, t0, u0, prefix, j);
            }
        }
        lemma_first_occurrence_is(sub0, prefix, k0 - t0);
        assert(token_holds(line, t0, u0, prefix));
        // An earlier token that held the prefix would hold an earlier occurrence.
        assert forall|t2: int, u2: int| #[trigger]
            token_holds(line, t2, u2, prefix) implies t0 <= t2 by {
            if t2 < t0 {
                let sub = line.subrange(t2, u2);
                lemma_first_occurrence(sub, prefix);
                lemma_occurs_at_within(line, t2, u2, prefix, first_occurrence(sub, prefix).unwrap());
            }
        }
    }
}

/// The GET line of `req` holds `token`.
pub open spec fn names(req: Seq<u8>, token: Seq<u8>) -> bool {
    get_line(req) matches Some(line) && occurs_in(line, token)
}

/// Neither control token holds a space.
pub proof fn lemma_control_tokens()
    ensures
        !lock_token().contains(SPACE),
        !unlock_token().contains(SPACE),
        lock_token().len() == 15,
        unlock_token().len() == 17,
{
    reveal_strlit("/lock?password=");
    reveal_strlit("/unlock?password=");
    assert(LOCK_PASS_TOKEN.is_ascii());
    assert(UNLOCK_PASS_TOKEN.is_ascii());
    assert(forall|i: int| 0 <= i < lock_token().len() ==> lock_token()[i] != SPACE);
    assert(forall|i: int| 0 <= i < unlock_token().len() ==> unlock_token()[i] != SPACE);
}

/// A GET line that holds a control token submits a credential under it, and
/// only such a line does: the check that decides whether a request is
/// dispatched and the parser that reads the credential agree.
pub proof fn lemma_named_token_is_submitted(req: Seq<u8>)
    ensures
        names(req, lock_token()) <==> submitted_credential(req, lock_token()) is Some,
        names(req, unlock_token()) <==> submitted_credential(req, unlock_token()) is Some,
{
    lemma_control_tokens();
}

/// What `get_line_from` finds is where a GET line begins, and no GET line
/// begins between `from` and it.
pub proof fn lemma_get_line_is_first(req: Seq<u8>, from: int)
    requires
        0 <= from,
    ensures
        match get_line_from(req, from) {
            Some(i) => from <= i && is_get_line(req, i) && forall|j: int|
                from <= j < i ==> !is_get_line(req, j),
            None => forall|j: int| from <= j ==> !is_get_line(req, j),
        },
    decreases req.len() - from,
{
    if from < req.len() && !is_get_line(req, from) {
        lemma_get_line_is_first(req, from + 1);
    }
}

/// No GET line begins in `a..b`, so the search from `a` continues at `b`.
proof fn lemma_get_line_skip(req: Seq<u8>, a: int, b: int)
    requires
        0 <= a <= b,
        forall|j: int| a <= j < b ==> !is_get_line(req, j),
    ensures
        get_line_from(req, a) == get_line_from(req, b),
    decreases b - a,
{
    if a < b {
        lemma_get_line_skip(req, a + 1, b);
    }
}

/// The text of the first line of `req` that opens with the GET method.
pub fn find_get_line<'a>(req: &'a [u8]) -> (r: Option<&'a [u8]>)
    ensures
        match r {
            Some(line) => get_line(req@) == Some(line@),
            None => get_line(req@) is None,
        },
{
    let mut start: usize = 0;
    while start < req.len()
        invariant
            start <= req.len(),
            start == 0 || req@[start - 1] == LINE_FEED,
            get_line_from(req@, 0) == get_line_from(req@, start as int),
        decreases req.len() - start,
    {
        let stop = index_of(req, LINE_FEED, start);
        proof {
            lemma_next_index_of(req@, LINE_FEED, start as int);
        }
        let end = if stop < req.len() && start < stop && req[stop - 1] == CARRIAGE_RETURN {
            stop - 1
        } else {
            stop
        };
        let line = &req[start..end];
        if matches_at(line, METHOD.as_bytes(), 0) {
            return Some(line);
        }
        proof {
            let next: int = if stop == req.len() {
                stop as int
            } else {
                stop + 1
            };
            // No line begins between here and the next line feed.
            assert(forall|j: int| start <= j < next ==> !is_get_line(req@, j));
            lemma_get_line_skip(req@, start as int, next);
        }
        if stop == req.len() {
            return None;
        }
        start = stop + 1;
    }
    None
}

/// The credential submitted on `line` under `prefix`, if any.
pub fn extract_credential<'a>(line: &'a [u8], prefix: &[u8]) -> (r: Option<&'a [u8]>)
    ensures
        match r {
            Some(c) => credential(line@, prefix@) == Some(c@),
            None => credential(line@, prefix@) is None,
        },
{
    let space = index_of(prefix, SPACE, 0);
    proof {
        lemma_next_index_of(prefix@, SPACE, 0);
    }
    if space < prefix.len() {
        return None;
    }
    match find(line, prefix) {
        None => None,
        Some(k) => {
            proof {
                lemma_first_occurrence(line@, prefix@);
                lemma_next_index_of(line@, SPACE, k + prefix@.len());
                assert(k + prefix.len() <= line.len());
            }
            let from = k + prefix.len();
            let end = index_of(line, SPACE, from);
            Some(&line[from..end])
        },
    }
}

/// The credential that the GET line of `req` submits under `prefix`, if any.
pub fn submitted<'a>(req: &'a [u8], prefix: &[u8]) -> (r: Option<&'a [u8]>)
    ensures
        match r {
            Some(c) => submitted_credential(req@, prefix@) == Some(c@),
            None => submitted_credential(req@, prefix@) is None,
        },
{
    match find_get_line(req) {
        Some(line) => extract_credential(line, prefix),
        None => None,
    }
}

/// Checks the credential that `req` submits under `pass_token` against
/// `secret`. When they are equal the lock state is set to locked or unlocked
/// as `we_will_lock` asks, and the result is `false`. In every other case,
/// a missing credential included, the lock state is left as it is and the
/// result is `true`: the request is in error.
pub fn toggle_lock(
    req: &[u8],
    device_lock: &mut LockState,
    pass_token: &str,
    we_will_lock: bool,
    secret: &str,
) -> (has_error: bool)
    ensures
        has_error == !credential_accepted(req@, pass_token.spec_bytes(), secret.spec_bytes()),
        *final(device_lock) == if has_error {
            *old(device_lock)
        } else {
            LockState::of_flag(we_will_lock)
        },
{
    match submitted(req, pass_token.as_bytes()) {
        Some(pass) => {
            if equal(pass, secret.as_bytes()) {
                *device_lock = LockState::from_flag(we_will_lock);
                false
            } else {
                true
            }
        },
        None => true,
    }
}

/// What a request leaves behind: the lock state after it, and whether it was
/// in error.
#[derive(Clone, Copy, Debug, PartialEq, Eq, Structural)]
pub struct Dispatch {
    pub state: LockState,
    pub has_error: bool,
}

/// The lock token as bytes.
pub open spec fn lock_token() -> Seq<u8> {
    LOCK_PASS_TOKEN.spec_bytes()
}

/// The unlock token as bytes.
pub open spec fn unlock_token() -> Seq<u8> {
    UNLOCK_PASS_TOKEN.spec_bytes()
}

/// The effect of one credential check on `state`: an accepted credential
/// sets the requested state without error; anything else keeps `state` and
/// is an error.
pub open spec fn toggled(
    req: Seq<u8>,
    prefix: Seq<u8>,
    secret: Seq<u8>,
    we_will_lock: bool,
    state: LockState,
) -> Dispatch {
    if credential_accepted(req, prefix, secret) {
        Dispatch { state: LockState::of_flag(we_will_lock), has_error: false }
    } else {
        Dispatch { state, has_error: true }
    }
}

/// The effect of handing `req` to the parser once. Without a GET line, or
/// with a GET line that holds neither control token, nothing changes and
/// nothing is in error. A GET line that holds the lock token is checked as a
/// lock request; one that holds the unlock token is then checked as an
/// unlock request, and where both are held the error flag is that of the
/// unlock check.
pub open spec fn dispatched(req: Seq<u8>, secret: Seq<u8>, state: LockState) -> Dispatch {
    match get_line(req) {
        None => Dispatch { state, has_error: false },
        Some(line) => {
            let first = if occurs_in(line, lock_token()) {
                toggled(req, lock_token(), secret, true, state)
            } else {
                Dispatch { state, has_error: false }
            };
            if occurs_in(line, unlock_token()) {
                toggled(req, unlock_token(), secret, false, first.state)
            } else {
                first
            }
        },
    }
}

/// Hands `req` to the parser once, if it holds a GET line: `None` says that
/// no GET line has arrived yet and nothing was done; `Some(has_error)` says
/// that the control line was dispatched, and whether it was in error.
pub fn dispatch(req: &[u8], device_lock: &mut LockState, secret: &str) -> (r: Option<bool>)
    ensures
        r is Some <==> get_line(req@) is Some,
        r matches Some(has_error) ==> has_error == dispatched(
            req@,
            secret.spec_bytes(),
            *old(device_lock),
        ).has_error,
        *final(device_lock) == dispatched(req@, secret.spec_bytes(), *old(device_lock)).state,
{
    match find_get_line(req) {
        None => None,
        Some(get_request) => {
            let mut has_error = false;
            if contains(get_request, LOCK_PASS_TOKEN.as_bytes()) {
                has_error = toggle_lock(req, device_lock, LOCK_PASS_TOKEN, true, secret);
            }
            if contains(get_request, UNLOCK_PASS_TOKEN.as_bytes()) {
                has_error = toggle_lock(req, device_lock, UNLOCK_PASS_TOKEN, false, secret);
            }
            Some(has_error)
        },
    }
}

} // verus!
