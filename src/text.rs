//! Character-level text operations: conversion between strings and
//! character vectors, and replacement of every occurrence of a pattern.
use vstd::prelude::*;

verus! {

/// True when `p` occurs in `s` starting at position `i`.
pub open spec fn occurs_at(s: Seq<char>, p: Seq<char>, i: int) -> bool {
    0 <= i && i + p.len() <= s.len() && s.subrange(i, i + p.len()) == p
}

/// True when `p` occurs somewhere in `s`.
pub open spec fn contains(s: Seq<char>, p: Seq<char>) -> bool {
    exists|i: int| occurs_at(s, p, i)
}

/// Replacing a pattern that does not occur leaves the text unchanged.
pub proof fn lemma_replace_absent(s: Seq<char>, p: Seq<char>, r: Seq<char>)
    requires
        !contains(s, p),
    ensures
        replace_all(s, p, r) == s,
    decreases s.len(),
{
    if p.len() == 0 || s.len() < p.len() {
    } else {
        assert(!occurs_at(s, p, 0));
        assert(!contains(s.skip(1), p)) by {
            assert forall|i: int| !occurs_at(s.skip(1), p, i) by {
                if occurs_at(s.skip(1), p, i) {
                    assert(s.skip(1).subrange(i, i + p.len()) =~= s.subrange(i + 1, i + 1 + p.len()));
                    assert(occurs_at(s, p, i + 1));
                }
            }
        }
        lemma_replace_absent(s.skip(1), p, r);
        assert(seq![s[0]] + s.skip(1) =~= s);
    }
}

/// Replacing in `s` from position `q` on, where `p` does not occur before
/// position `k`, keeps the text from `q` to `k` as it is.
proof fn lemma_replace_keeps_prefix(s: Seq<char>, p: Seq<char>, r: Seq<char>, q: int, k: int)
    requires
        p.len() > 0,
        0 <= q <= k,
        k + p.len() <= s.len(),
        forall|i: int| q <= i < k ==> !occurs_at(s, p, i),
    ensures
        replace_all(s.skip(q), p, r) == s.subrange(q, k) + replace_all(s.skip(k), p, r),
    decreases k - q,
{
    if q < k {
        assert(!occurs_at(s, p, q));
        assert(s.skip(q).subrange(0, p.len() as int) =~= s.subrange(q, q + p.len()));
        assert(s.skip(q).skip(1) =~= s.skip(q + 1));
        lemma_replace_keeps_prefix(s, p, r, q + 1, k);
        assert(seq![s[q]] + s.subrange(q + 1, k) =~= s.subrange(q, k));
    } else {
        assert(s.subrange(q, k) =~= Seq::<char>::empty());
    }
}

/// Where `p` occurs in `s` at position `k` only, replacing it gives the text
/// around it with `r` in its place.
pub proof fn lemma_replace_single(s: Seq<char>, p: Seq<char>, r: Seq<char>, k: int)
    requires
        p.len() > 0,
        occurs_at(s, p, k),
        forall|i: int| occurs_at(s, p, i) ==> i == k,
    ensures
        replace_all(s, p, r) == s.subrange(0, k) + r + s.skip(k + p.len()),
{
    lemma_replace_keeps_prefix(s, p, r, 0, k);
    assert(s.skip(0) =~= s);
    let rest = s.skip(k);
    assert(rest.subrange(0, p.len() as int) =~= s.subrange(k, k + p.len()));
    assert(rest.skip(p.len() as int) =~= s.skip(k + p.len()));
    let tail = s.skip(k + p.len());
    assert(!contains(tail, p)) by {
        assert forall|j: int| !occurs_at(tail, p, j) by {
            if occurs_at(tail, p, j) {
                assert(tail.subrange(j, j + p.len()) =~= s.subrange(k + p.len() + j, k + p.len() + j + p.len()));
                assert(occurs_at(s, p, k + p.len() + j));
            }
        }
    }
    lemma_replace_absent(tail, p, r);
    assert(s.subrange(0, k) + (r + tail) =~= s.subrange(0, k) + r + tail);
}

/// `s` with every occurrence of `p` replaced by `r`, occurrences taken from
/// left to right without overlap.
pub open spec fn replace_all(s: Seq<char>, p: Seq<char>, r: Seq<char>) -> Seq<char>
    decreases s.len(),
{
    if p.len() == 0 || s.len() < p.len() {
        s
    } else if s.subrange(0, p.len() as int) == p {
        r + replace_all(s.skip(p.len() as int), p, r)
    } else {
        seq![s[0]] + replace_all(s.skip(1), p, r)
    }
}

/// Relies on `String::from_iter`: collecting characters gives the string of
/// exactly those characters, in order.
#[verifier::external_body]
pub(crate) fn string_from_chars(v: &Vec<char>) -> (r: String)
    ensures
        r@ == v@,
{
    String::from_iter(v.iter())
}

/// The characters of `s`, in order.
pub fn chars_of(s: &str) -> (r: Vec<char>)
    ensures
        r@ == s@,
{
    let mut r: Vec<char> = Vec::new();
    for c in it: s.chars()
        invariant
            r@ == it.seq().take(it.index() as int),
    {
        r.push(c);
    }
    r
}

/// Whether `p` occurs in `s` at position `i`.
pub fn occurs_at_exec(s: &Vec<char>, p: &Vec<char>, i: usize) -> (b: bool)
    ensures
        b == occurs_at(s@, p@, i as int),
{
    if p.len() > s.len() || i > s.len() - p.len() {
        return false;
    }
    let mut k: usize = 0;
    while k < p.len()
        invariant
            i + p.len() <= s.len(),
            k <= p.len(),
            forall|j: int| 0 <= j < k ==> s@[i + j] == p@[j],
        decreases p.len() - k,
    {
        if s[i + k] != p[k] {
            assert(s@.subrange(i as int, i + p.len())[k as int] != p@[k as int]);
            return false;
        }
        k = k + 1;
    }
    assert(s@.subrange(i as int, i + p.len()) =~= p@);
    true
}

/// Appends the characters of `r` to `out`.
pub fn append_chars(out: &mut Vec<char>, r: &Vec<char>)
    ensures
        final(out)@ == old(out)@ + r@,
{
    let ghost before = out@;
    let mut k: usize = 0;
    while k < r.len()
        invariant
            k <= r.len(),
            out@ == before + r@.take(k as int),
        decreases r.len() - k,
    {
        out.push(r[k]);
        k = k + 1;
        assert(r@.take(k as int) =~= r@.take(k - 1) + seq![r@[k - 1]]);
    }
    assert(r@.take(k as int) =~= r@);
}

/// Replaces every occurrence of `p` in `s` by `r`, scanning from the left.
pub fn replace_all_exec(s: &Vec<char>, p: &Vec<char>, r: &Vec<char>) -> (out: Vec<char>)
    ensures
        out@ == replace_all(s@, p@, r@),
{
    let mut out: Vec<char> = Vec::new();
    if p.len() == 0 {
        append_chars(&mut out, s);
        return out;
    }
    let mut i: usize = 0;
    assert(s@.skip(0) =~= s@);
    while i < s.len()
        invariant
            p.len() > 0,
            i <= s.len(),
            out@ + replace_all(s@.skip(i as int), p@, r@) == replace_all(s@, p@, r@),
        decreases s.len() - i,
    {
        let ghost rest = s@.skip(i as int);
        let ghost out0 = out@;
        if occurs_at_exec(s, p, i) {
            assert(rest.subrange(0, p.len() as int) =~= s@.subrange(i as int, i + p.len()));
            assert(rest.skip(p.len() as int) =~= s@.skip(i + p.len()));
            append_chars(&mut out, r);
            i = i + p.len();
            assert(out0 + replace_all(rest, p@, r@) == out@ + replace_all(s@.skip(i as int), p@, r@))
                by {
                assert(out0 + (r@ + replace_all(s@.skip(i as int), p@, r@)) =~= (out0 + r@)
                    + replace_all(s@.skip(i as int), p@, r@));
            }
        } else {
            if s.len() - i >= p.len() {
                assert(rest.subrange(0, p.len() as int) =~= s@.subrange(i as int, i + p.len()));
                assert(rest.skip(1) =~= s@.skip(i + 1));
                out.push(s[i]);
                i = i + 1;
                assert(out0 + (seq![s@[i - 1]] + replace_all(s@.skip(i as int), p@, r@)) =~= out@
                    + replace_all(s@.skip(i as int), p@, r@));
            } else {
                let ghost done = out0 + rest;
                append_rest(&mut out, s, i);
                assert(out@ =~= done);
                assert(s@.skip(s@.len() as int) =~= Seq::<char>::empty());
                i = s.len();
            }
        }
    }
    assert(s@.skip(i as int) =~= Seq::<char>::empty());
    out
}

/// Appends the characters of `s` from position `i` on to `out`.
fn append_rest(out: &mut Vec<char>, s: &Vec<char>, i: usize)
    requires
        i <= s.len(),
    ensures
        final(out)@ == old(out)@ + s@.skip(i as int),
{
    let ghost before = out@;
    let mut k: usize = i;
    while k < s.len()
        invariant
            i <= k <= s.len(),
            out@ == before + s@.subrange(i as int, k as int),
        decreases s.len() - k,
    {
        out.push(s[k]);
        k = k + 1;
        assert(s@.subrange(i as int, k as int) =~= s@.subrange(i as int, k - 1) + seq![s@[k - 1]]);
    }
    assert(s@.subrange(i as int, k as int) =~= s@.skip(i as int));
}

} // verus!
