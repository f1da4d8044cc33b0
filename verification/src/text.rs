//! Searching byte strings and replacing parts of them.
//!
//! Requests and documents are handled as raw bytes; nothing here assumes
//! that they are well-formed text.

use vstd::prelude::*;

verus! {

/// `pat` stands in `s` at offset `i`.
pub open spec fn occurs_at(s: Seq<u8>, pat: Seq<u8>, i: int) -> bool {
    &&& 0 <= i
    &&& i + pat.len() <= s.len()
    &&& s.subrange(i, i + pat.len()) == pat
}

/// The least offset at or after `from` where `pat` stands in `s`.
pub open spec fn first_occurrence_from(s: Seq<u8>, pat: Seq<u8>, from: int) -> Option<int>
    decreases s.len() + 1 - from,
{
    if from < 0 || from + pat.len() > s.len() {
        None
    } else if occurs_at(s, pat, from) {
        Some(from)
    } else {
        first_occurrence_from(s, pat, from + 1)
    }
}

/// The least offset where `pat` stands in `s`.
pub open spec fn first_occurrence(s: Seq<u8>, pat: Seq<u8>) -> Option<int> {
    first_occurrence_from(s, pat, 0)
}

/// `pat` stands somewhere in `s`.
pub open spec fn occurs_in(s: Seq<u8>, pat: Seq<u8>) -> bool {
    first_occurrence(s, pat) is Some
}

/// The least index at or after `from` that holds `b`, or the length of `s`
/// when no such index exists.
pub open spec fn next_index_of(s: Seq<u8>, b: u8, from: int) -> int
    decreases s.len() - from,
{
    if from >= s.len() {
        s.len() as int
    } else if from >= 0 && s[from] == b {
        from
    } else {
        next_index_of(s, b, from + 1)
    }
}

/// `s` with every occurrence of `from` replaced by `to`, scanning from the
/// left; occurrences that overlap an earlier one are left alone. An empty
/// `from` occurs nowhere.
pub open spec fn substituted(s: Seq<u8>, from: Seq<u8>, to: Seq<u8>) -> Seq<u8>
    decreases s.len(),
{
    if from.len() == 0 || s.len() < from.len() {
        s
    } else if s.subrange(0, from.len() as int) == from {
        to + substituted(s.subrange(from.len() as int, s.len() as int), from, to)
    } else {
        seq![s[0]] + substituted(s.subrange(1, s.len() as int), from, to)
    }
}

/// What `first_occurrence_from` finds is an occurrence, and no occurrence
/// lies between `from` and it.
pub proof fn lemma_first_occurrence_from(s: Seq<u8>, pat: Seq<u8>, from: int)
    requires
        0 <= from,
    ensures
        match first_occurrence_from(s, pat, from) {
            Some(k) => from <= k && occurs_at(s, pat, k) && forall|j: int|
                from <= j < k ==> !occurs_at(s, pat, j),
            None => forall|j: int| from <= j ==> !occurs_at(s, pat, j),
        },
    decreases s.len() + 1 - from,
{
    if from + pat.len() <= s.len() && !occurs_at(s, pat, from) {
        lemma_first_occurrence_from(s, pat, from + 1);
    }
}

/// `first_occurrence` is the least offset of an occurrence, and is `None`
/// exactly when there is no occurrence.
pub proof fn lemma_first_occurrence(s: Seq<u8>, pat: Seq<u8>)
    ensures
        match first_occurrence(s, pat) {
            Some(k) => occurs_at(s, pat, k) && forall|j: int| j < k ==> !occurs_at(s, pat, j),
            None => forall|j: int| !occurs_at(s, pat, j),
        },
{
    lemma_first_occurrence_from(s, pat, 0);
}

/// An occurrence at `k` with none before it is the first occurrence.
pub proof fn lemma_first_occurrence_is(s: Seq<u8>, pat: Seq<u8>, k: int)
    requires
        occurs_at(s, pat, k),
        forall|j: int| 0 <= j < k ==> !occurs_at(s, pat, j),
    ensures
        first_occurrence(s, pat) == Some(k),
{
    lemma_first_occurrence(s, pat);
}

/// `next_index_of` stays within `from..=s.len()`, stops on `b`, and skips
/// only bytes other than `b`.
pub proof fn lemma_next_index_of(s: Seq<u8>, b: u8, from: int)
    requires
        0 <= from <= s.len(),
    ensures
        from <= next_index_of(s, b, from) <= s.len(),
        next_index_of(s, b, from) < s.len() ==> s[next_index_of(s, b, from)] == b,
        forall|j: int| from <= j < next_index_of(s, b, from) ==> s[j] != b,
    decreases s.len() - from,
{
    if from < s.len() && s[from] != b {
        lemma_next_index_of(s, b, from + 1);
    }
}

/// Dropping the first `n` bytes of `s` shifts every occurrence by `n`.
pub proof fn lemma_occurs_at_suffix(s: Seq<u8>, pat: Seq<u8>, n: int, j: int)
    requires
        0 <= n <= s.len(),
        0 <= j,
    ensures
        occurs_at(s.subrange(n, s.len() as int), pat, j) == occurs_at(s, pat, n + j),
{
    let tail = s.subrange(n, s.len() as int);
    if j + pat.len() <= tail.len() {
        assert(tail.subrange(j, j + pat.len()) =~= s.subrange(n + j, n + j + pat.len()));
    }
}

/// A string in which `from` does not occur is left as it is.
pub proof fn lemma_substituted_without_occurrence(s: Seq<u8>, from: Seq<u8>, to: Seq<u8>)
    requires
        !occurs_in(s, from),
    ensures
        substituted(s, from, to) == s,
    decreases s.len(),
{
    lemma_first_occurrence(s, from);
    if from.len() > 0 && s.len() >= from.len() {
        assert(!occurs_at(s, from, 0));
        let tail = s.subrange(1, s.len() as int);
        assert forall|j: int| !occurs_at(tail, from, j) by {
            if 0 <= j {
                lemma_occurs_at_suffix(s, from, 1, j);
            }
        }
        lemma_first_occurrence(tail, from);
        lemma_substituted_without_occurrence(tail, from, to);
        assert(seq![s[0]] + tail =~= s);
    }
}

/// Up to the first occurrence of `from` the string is kept; there `to`
/// stands in its place, followed by the remainder, treated alike.
pub proof fn lemma_substituted_at_first(s: Seq<u8>, from: Seq<u8>, to: Seq<u8>, k: int)
    requires
        from.len() > 0,
        first_occurrence(s, from) == Some(k),
    ensures
        0 <= k && k + from.len() <= s.len(),
        substituted(s, from, to) == s.subrange(0, k) + to + substituted(
            s.subrange(k + from.len(), s.len() as int),
            from,
            to,
        ),
        occurs_at(substituted(s, from, to), to, k),
    decreases k,
{
    lemma_first_occurrence(s, from);
    let m = from.len() as int;
    let n = s.len() as int;
    let rest = substituted(s.subrange(k + m, n), from, to);
    if k == 0 {
        assert(s.subrange(0, 0) + to + rest =~= to + rest);
    } else {
        assert(!occurs_at(s, from, 0));
        let tail = s.subrange(1, n);
        assert(occurs_at(tail, from, k - 1)) by {
            lemma_occurs_at_suffix(s, from, 1, k - 1);
        }
        assert forall|j: int| 0 <= j < k - 1 implies !occurs_at(tail, from, j) by {
            lemma_occurs_at_suffix(s, from, 1, j);
        }
        lemma_first_occurrence_is(tail, from, k - 1);
        lemma_substituted_at_first(tail, from, to, k - 1);
        assert(tail.subrange(k - 1 + m, tail.len() as int) =~= s.subrange(k + m, n));
        assert(seq![s[0]] + (tail.subrange(0, k - 1) + to + rest) =~= s.subrange(0, k) + to
            + rest);
    }
    let out = s.subrange(0, k) + to + rest;
    assert(out.subrange(k, k + to.len()) =~= to);
}

/// An index `k` that holds `b`, or the end of `s`, with no `b` between
/// `from` and it, is what `next_index_of` finds.
pub proof fn lemma_next_index_of_is(s: Seq<u8>, b: u8, from: int, k: int)
    requires
        0 <= from <= k <= s.len(),
        forall|j: int| from <= j < k ==> s[j] != b,
        k == s.len() || s[k] == b,
    ensures
        next_index_of(s, b, from) == k,
    decreases k - from,
{
    if from < k {
        lemma_next_index_of_is(s, b, from + 1, k);
    }
}

/// Whether `pat` stands in `s` at offset `i`.
pub fn matches_at(s: &[u8], pat: &[u8], i: usize) -> (r: bool)
    ensures
        r == occurs_at(s@, pat@, i as int),
{
    if i > s.len() || pat.len() > s.len() - i {
        return false;
    }
    let mut j: usize = 0;
    while j < pat.len()
        invariant
            i + pat.len() <= s.len(),
            j <= pat.len(),
            forall|k: int| 0 <= k < j ==> s@[i + k] == pat@[k],
        decreases pat.len() - j,
    {
        if s[i + j] != pat[j] {
            assert(s@.subrange(i as int, i + pat@.len())[j as int] == s@[i + j]);
            return false;
        }
        j += 1;
    }
    assert(s@.subrange(i as int, i + pat@.len()) =~= pat@);
    true
}

/// The offset of the first occurrence of `pat` in `s`.
pub fn find(s: &[u8], pat: &[u8]) -> (r: Option<usize>)
    ensures
        match r {
            Some(k) => first_occurrence(s@, pat@) == Some(k as int),
            None => first_occurrence(s@, pat@) is None,
        },
{
    if pat.len() > s.len() {
        return None;
    }
    let last: usize = s.len() - pat.len();
    let mut i: usize = 0;
    loop
        invariant
            i <= last,
            last == s@.len() - pat@.len(),
            first_occurrence(s@, pat@) == first_occurrence_from(s@, pat@, i as int),
        decreases last - i,
    {
        if matches_at(s, pat, i) {
            return Some(i);
        }
        if i == last {
            assert(first_occurrence_from(s@, pat@, i + 1) is None);
            return None;
        }
        i += 1;
    }
}

/// Whether `pat` stands somewhere in `s`.
pub fn contains(s: &[u8], pat: &[u8]) -> (r: bool)
    ensures
        r == occurs_in(s@, pat@),
{
    find(s, pat).is_some()
}

/// The least index at or after `from` that holds `b`, or `s.len()`.
pub fn index_of(s: &[u8], b: u8, from: usize) -> (r: usize)
    ensures
        r == next_index_of(s@, b, from as int),
{
    let mut i: usize = from;
    while i < s.len()
        invariant
            next_index_of(s@, b, from as int) == next_index_of(s@, b, i as int),
        decreases s@.len() - i,
    {
        if s[i] == b {
            return i;
        }
        i += 1;
    }
    s.len()
}

/// Whether `a` and `b` hold the same bytes.
pub fn equal(a: &[u8], b: &[u8]) -> (r: bool)
    ensures
        r == (a@ == b@),
{
    if a.len() != b.len() {
        return false;
    }
    let mut i: usize = 0;
    while i < a.len()
        invariant
            a@.len() == b@.len(),
            i <= a@.len(),
            forall|k: int| 0 <= k < i ==> a@[k] == b@[k],
        decreases a@.len() - i,
    {
        if a[i] != b[i] {
            return false;
        }
        i += 1;
    }
    assert(a@ =~= b@);
    true
}

/// `s` with every occurrence of `from` replaced by `to`, left to right.
pub fn substitute(s: &[u8], from: &[u8], to: &[u8]) -> (r: Vec<u8>)
    ensures
        r@ == substituted(s@, from@, to@),
{
    let mut out: Vec<u8> = Vec::new();
    let mut i: usize = 0;
    assert(s@.subrange(0, s.len() as int) =~= s@);
    assert(out@ + substituted(s@, from@, to@) =~= substituted(s@, from@, to@));
    while i < s.len()
        invariant
            i <= s.len(),
            out@ + substituted(s@.subrange(i as int, s.len() as int), from@, to@) == substituted(
                s@,
                from@,
                to@,
            ),
        decreases s.len() - i,
    {
        let ghost rest = s@.subrange(i as int, s.len() as int);
        let ghost before = out@;
        if from.len() > 0 && matches_at(s, from, i) {
            out.extend_from_slice(to);
            proof {
                let m = from@.len() as int;
                assert(rest.subrange(0, m) =~= s@.subrange(i as int, i + m));
                assert(rest.subrange(m, rest.len() as int) =~= s@.subrange(
                    i + m,
                    s.len() as int,
                ));
                let tail = substituted(s@.subrange(i + m, s.len() as int), from@, to@);
                assert((before + to@) + tail =~= before + (to@ + tail));
            }
            i += from.len();
        } else {
            out.push(s[i]);
            proof {
                let next = s@.subrange(i + 1, s.len() as int);
                assert(rest.subrange(1, rest.len() as int) =~= next);
                if from@.len() > 0 && rest.len() >= from@.len() {
                    let m = from@.len() as int;
                    assert(rest.subrange(0, m) =~= s@.subrange(i as int, i + m));
                    let tail = substituted(next, from@, to@);
                    assert(before.push(s@[i as int]) + tail =~= before + (seq![rest[0]] + tail));
                } else {
                    assert(before.push(s@[i as int]) + next =~= before + rest);
                }
            }
            i += 1;
        }
    }
    assert(s@.subrange(i as int, s.len() as int) =~= Seq::<u8>::empty());
    assert(out@ + Seq::<u8>::empty() =~= out@);
    out
}

} // verus!
