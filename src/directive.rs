//! Scanning a script for directives of the form `--#` + keyword + `(name)`,
//! where `name` is a run of one or more word characters.
use vstd::prelude::*;
use crate::text::{chars_of, string_from_chars};

verus! {

/// Whether a character belongs to the word class (`\w`) of Unicode regular
/// expressions.
pub uninterp spec fn word_char_of(c: char) -> bool;

/// Relies on `regex_syntax::is_word_character`: the Unicode `\w` class that
/// the `regex` crate matches, whose ASCII members `[_0-9a-zA-Z]` are tested
/// before the Unicode table; that table holds no other ASCII character. It panics only without the `unicode-perl`
/// feature, which is on by default.
#[verifier::external_body]
pub(crate) fn is_word_char(c: char) -> (r: bool)
    ensures
        r == word_char_of(c),
        ('a' <= c <= 'z' || 'A' <= c <= 'Z' || '0' <= c <= '9' || c == '_') ==> r,
        (c as u32) < 128 ==> (r <==> ('a' <= c <= 'z' || 'A' <= c <= 'Z' || '0' <= c <= '9' || c
            == '_')),
{
    regex_syntax::is_word_character(c)
}

/// The fixed text that opens a directive.
pub open spec fn marker_open() -> Seq<char> {
    seq!['-', '-', '#', 'i', 'n', 'c', 'l', 'u', 'd', 'e', '(']
}

/// The character that closes a directive.
pub open spec fn marker_close() -> char {
    ')'
}

/// Length of the run of word characters in `s` starting at position `j`.
pub open spec fn word_run(s: Seq<char>, j: int) -> nat
    decreases s.len() - j,
{
    if 0 <= j < s.len() && word_char_of(s[j]) {
        1 + word_run(s, j + 1)
    } else {
        0
    }
}

/// The end (exclusive) of the directive that starts at position `i` of `s`,
/// if one does: the opening text, a non-empty run of word characters, then
/// the closing parenthesis.
pub open spec fn match_end(s: Seq<char>, i: int) -> Option<int> {
    let o = marker_open().len() as int;
    if 0 <= i && i + o <= s.len() && s.subrange(i, i + o) == marker_open() {
        let n = word_run(s, i + o) as int;
        if n >= 1 && i + o + n < s.len() && s[i + o + n] == marker_close() {
            Some(i + o + n + 1)
        } else {
            None
        }
    } else {
        None
    }
}

/// The spans `(start, end)` of the directives of `s` found by scanning from
/// position `i` to the right, each match resuming the scan at its end.
pub open spec fn spans_from(s: Seq<char>, i: int) -> Seq<(int, int)>
    decreases s.len() - i,
{
    if i < 0 || i >= s.len() {
        Seq::empty()
    } else {
        match match_end(s, i) {
            Some(e) => seq![(i, e)] + spans_from(s, e),
            None => spans_from(s, i + 1),
        }
    }
}

/// The spans of all directives of `s`, left to right, without overlap.
pub open spec fn spans_of(s: Seq<char>) -> Seq<(int, int)> {
    spans_from(s, 0)
}

/// One directive found in a script.
#[derive(Clone, Debug)]
pub struct Directive {
    /// The package name between the parentheses.
    pub name: String,
    /// The whole directive text, exactly as it appears in the script.
    pub matched: String,
    /// Character offset of the directive's first character.
    pub start: usize,
    /// Character offset just past the closing parenthesis.
    pub end: usize,
}

impl Directive {
    /// The span `(start, end)` of this directive.
    pub open spec fn span(&self) -> (int, int) {
        (self.start as int, self.end as int)
    }

    /// A copy of this directive.
    pub fn duplicate(&self) -> (r: Directive)
        ensures
            r == *self,
    {
        Directive { name: self.name.clone(), matched: self.matched.clone(), start: self.start, end: self.end }
    }

    /// This directive is the one spanning `sp` in `s`.
    pub open spec fn found_in(&self, s: Seq<char>, sp: (int, int)) -> bool {
        &&& self.start == sp.0
        &&& self.end == sp.1
        &&& self.matched@ == s.subrange(sp.0, sp.1)
        &&& self.name@ == s.subrange(sp.0 + marker_open().len(), sp.1 - 1)
    }
}

/// The directives of `s`, in order: `ds` lists exactly the spans of `s`.
pub open spec fn directives_match(ds: Seq<Directive>, s: Seq<char>) -> bool {
    &&& ds.len() == spans_of(s).len()
    &&& forall|k: int| 0 <= k < ds.len() ==> #[trigger] ds[k].found_in(s, spans_of(s)[k])
}

/// The directive text naming package `name`.
pub open spec fn directive_for(name: Seq<char>) -> Seq<char> {
    marker_open() + name + seq![marker_close()]
}

/// The opening text of a directive, as characters.
fn marker_open_chars() -> (r: Vec<char>)
    ensures
        r@ == marker_open(),
{
    let r = vec!['-', '-', '#', 'i', 'n', 'c', 'l', 'u', 'd', 'e', '('];
    assert(r@ =~= marker_open());
    r
}

/// The text of the directive that names package `name`.
pub fn directive_text(name: &str) -> (r: String)
    ensures
        r@ == directive_for(name@),
{
    let mut v = marker_open_chars();
    let n = chars_of(name);
    let mut k: usize = 0;
    let ghost before = v@;
    while k < n.len()
        invariant
            k <= n.len(),
            v@ == before + n@.take(k as int),
        decreases n.len() - k,
    {
        v.push(n[k]);
        k = k + 1;
        assert(n@.take(k as int) =~= n@.take(k - 1) + seq![n@[k - 1]]);
    }
    assert(n@.take(k as int) =~= n@);
    v.push(')');
    assert(v@ =~= directive_for(name@));
    string_from_chars(&v)
}

/// Length of the run of word characters in `s` starting at position `j`.
fn word_run_exec(s: &Vec<char>, j: usize) -> (n: usize)
    requires
        j <= s.len(),
    ensures
        n == word_run(s@, j as int),
        j + n <= s.len(),
{
    let mut e: usize = j;
    while e < s.len() && is_word_char(s[e])
        invariant
            j <= e <= s.len(),
            forall|t: int| j <= t < e ==> word_char_of(s@[t]),
        decreases s.len() - e,
    {
        e = e + 1;
    }
    proof {
        lemma_word_run_upto(s@, j as int, e as int);
    }
    e - j
}

/// A run of word characters from `j` to `e`, stopped at `e`, has length `e - j`.
proof fn lemma_word_run_upto(s: Seq<char>, j: int, e: int)
    requires
        0 <= j <= e <= s.len(),
        forall|t: int| j <= t < e ==> word_char_of(s[t]),
        e == s.len() || !word_char_of(s[e]),
    ensures
        word_run(s, j) == e - j,
    decreases e - j,
{
    if j < e {
        lemma_word_run_upto(s, j + 1, e);
    }
}

/// The end of the directive starting at position `i` of `s`, if one does.
fn match_end_exec(s: &Vec<char>, open: &Vec<char>, i: usize) -> (r: Option<usize>)
    requires
        open@ == marker_open(),
        i <= s.len(),
    ensures
        r matches Some(e) ==> match_end(s@, i as int) == Some(e as int),
        r is None ==> match_end(s@, i as int) is None,
{
    if !crate::text::occurs_at_exec(s, open, i) {
        return None;
    }
    let b = i + open.len();
    let n = word_run_exec(s, b);
    if n >= 1 && b + n < s.len() && s[b + n] == ')' {
        Some(b + n + 1)
    } else {
        None
    }
}

/// Finds every directive of `text`, scanning left to right; after a match
/// the scan resumes just past it.
pub fn scan_directives(text: &String) -> (r: Vec<Directive>)
    ensures
        directives_match(r@, text@),
{
    let s = chars_of(text.as_str());
    let open = marker_open_chars();
    let mut r: Vec<Directive> = Vec::new();
    let mut i: usize = 0;
    while i < s.len()
        invariant
            s@ == text@,
            open@ == marker_open(),
            i <= s.len(),
            spans_of(s@) == r@.map_values(|d: Directive| d.span()) + spans_from(s@, i as int),
            forall|k: int| 0 <= k < r@.len() ==> #[trigger] r@[k].found_in(s@, r@[k].span()),
        decreases s.len() - i,
    {
        let ghost before = r@;
        match match_end_exec(&s, &open, i) {
            Some(e) => {
                let b = i + open.len();
                let name = text.as_str().substring_char(b, e - 1).to_owned();
                let matched = text.as_str().substring_char(i, e).to_owned();
                let d = Directive { name, matched, start: i, end: e };
                r.push(d);
                assert(r@.map_values(|d: Directive| d.span()) =~= before.map_values(
                    |d: Directive| d.span(),
                ) + seq![(i as int, e as int)]);
                i = e;
            },
            None => {
                i = i + 1;
            },
        }
    }
    assert(spans_from(s@, i as int) =~= Seq::<(int, int)>::empty());
    assert(r@.map_values(|d: Directive| d.span()) =~= spans_of(s@));
    r
}

/// Every character of a word run is a word character.
proof fn lemma_word_run_chars(s: Seq<char>, j: int, k: int)
    requires
        0 <= k < word_run(s, j),
    ensures
        0 <= j + k < s.len(),
        word_char_of(s[j + k]),
    decreases k,
{
    if k > 0 {
        lemma_word_run_chars(s, j + 1, k - 1);
    }
}

/// The first span of a scan from `p` is a directive, and the scan goes on
/// from its end.
pub proof fn lemma_first_span(t: Seq<char>, p: int)
    requires
        p >= 0,
        spans_from(t, p).len() > 0,
    ensures
        p <= spans_from(t, p)[0].0,
        match_end(t, spans_from(t, p)[0].0) == Some(spans_from(t, p)[0].1),
        spans_from(t, p) == seq![spans_from(t, p)[0]] + spans_from(t, spans_from(t, p)[0].1),
    decreases t.len() - p,
{
    if match_end(t, p) is None {
        lemma_first_span(t, p + 1);
    }
}

/// A scan from `p` that passes a directive start `i` finds a first span no
/// later than `i`, and goes on from that span's end.
pub proof fn lemma_scan_reaches(t: Seq<char>, p: int, i: int)
    requires
        0 <= p <= i,
        match_end(t, i) is Some,
    ensures
        spans_from(t, p).len() > 0,
        p <= spans_from(t, p)[0].0 <= i,
        match_end(t, spans_from(t, p)[0].0) == Some(spans_from(t, p)[0].1),
        spans_from(t, p) == seq![spans_from(t, p)[0]] + spans_from(t, spans_from(t, p)[0].1),
    decreases i - p,
{
    if match_end(t, p) is None {
        lemma_scan_reaches(t, p + 1, i);
    }
}

/// Where a directive spans `s..e` and `)` is no word character, every
/// occurrence of its text is itself a directive start.
pub proof fn lemma_occurrence_is_match(t: Seq<char>, s: int, e: int, i: int)
    requires
        match_end(t, s) == Some(e),
        crate::text::occurs_at(t, t.subrange(s, e), i),
        !word_char_of(marker_close()),
    ensures
        match_end(t, i) == Some(i + (e - s)),
{
    let o = marker_open().len() as int;
    let n = word_run(t, s + o) as int;
    let m = t.subrange(s, e);
    assert(e == s + o + n + 1);
    assert(t.subrange(i, i + o) =~= t.subrange(s, s + o)) by {
        assert forall|k: int| 0 <= k < o implies #[trigger] t.subrange(i, i + o)[k] == t.subrange(s, s + o)[k] by {
            assert(t.subrange(i, e - s + i)[k] == m[k]);
        }
    }
    assert forall|k: int| i + o <= k < i + o + n implies word_char_of(t[k]) by {
        lemma_word_run_chars(t, s + o, k - i - o);
        assert(t.subrange(i, e - s + i)[k - i] == m[k - i]);
    }
    assert(t.subrange(i, e - s + i)[o + n] == m[o + n]);
    lemma_word_run_upto(t, i + o, i + o + n);
}

/// Where a directive spans `s..e` and `-` is no word character, its text
/// occurs at no position strictly inside it.
pub proof fn lemma_no_inner_occurrence(t: Seq<char>, s: int, e: int, i: int)
    requires
        match_end(t, s) == Some(e),
        s < i < e,
        !word_char_of('-'),
    ensures
        !crate::text::occurs_at(t, t.subrange(s, e), i),
{
    let o = marker_open().len() as int;
    let n = word_run(t, s + o) as int;
    let m = t.subrange(s, e);
    if crate::text::occurs_at(t, m, i) {
        assert(t.subrange(i, i + m.len())[0] == m[0]);
        assert(t.subrange(i, i + m.len())[1] == m[1]);
        assert(t.subrange(s, s + o)[0] == '-');
        assert(t.subrange(s, s + o)[2] == '#');
        assert(t[i] == '-' && t[i + 1] == '-');
        if i < s + o {
            assert(t.subrange(s, s + o)[i - s] == marker_open()[i - s]);
            assert(t.subrange(s, s + o)[i + 1 - s] == marker_open()[i + 1 - s]);
        } else if i < s + o + n {
            lemma_word_run_chars(t, s + o, i - s - o);
        }
    }
}

} // verus!
