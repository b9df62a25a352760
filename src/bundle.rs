//! Producing the bundled script: each distinct directive text of the main
//! file is replaced, in order of discovery, by the contents of the package
//! it names, everywhere it occurs.
use vstd::prelude::*;
use crate::directive::{
    spans_from, is_word_char, lemma_first_span, lemma_no_inner_occurrence, lemma_occurrence_is_match,
    lemma_scan_reaches, marker_close, marker_open, scan_directives, spans_of, word_char_of, Directive,
};
use crate::text::{chars_of, lemma_replace_single, occurs_at, replace_all, replace_all_exec, string_from_chars};

verus! {

/// Why a bundle could not be produced.
#[derive(Clone, Debug, PartialEq, Eq)]
pub enum BundleError {
    /// The main file, named here, could not be read.
    MainFileNotFound(String),
    /// No file was found for the package named here.
    PackageNotFound(String),
}

/// The exact directive text at span `sp` of `t`.
pub open spec fn matched_at(t: Seq<char>, sp: (int, int)) -> Seq<char> {
    t.subrange(sp.0, sp.1)
}

/// The package name of the directive at span `sp` of `t`.
pub open spec fn name_at(t: Seq<char>, sp: (int, int)) -> Seq<char> {
    t.subrange(sp.0 + marker_open().len(), sp.1 - 1)
}

/// The contents handed in for each directive, as character sequences.
pub open spec fn contents_view(cs: Seq<Option<String>>) -> Seq<Option<Seq<char>>> {
    cs.map_values(
        |c: Option<String>|
            match c {
                Some(x) => Some(x@),
                None => None,
            },
    )
}

/// The text of directive `k` of `t` already appeared as an earlier
/// directive of `t`.
pub open spec fn repeats_earlier(t: Seq<char>, k: int) -> bool {
    exists|j: int| 0 <= j < k && matched_at(t, spans_of(t)[j]) == matched_at(t, spans_of(t)[k])
}

/// Bundling of main text `t` from directive `k` on, with working text `buf`.
/// Each distinct directive text is handled once, at its first directive: if
/// that directive has contents, every occurrence of the text in the working
/// text is replaced by them; if not, the bundle fails with its package
/// name. Later directives with the same text are passed over.
pub open spec fn bundle_from(
    t: Seq<char>,
    buf: Seq<char>,
    cs: Seq<Option<Seq<char>>>,
    k: int,
) -> Result<Seq<char>, Seq<char>>
    decreases cs.len() - k,
{
    if k < 0 || k >= cs.len() || k >= spans_of(t).len() {
        Ok(buf)
    } else if repeats_earlier(t, k) {
        bundle_from(t, buf, cs, k + 1)
    } else {
        match cs[k] {
            None => Err(name_at(t, spans_of(t)[k])),
            Some(c) => bundle_from(t, replace_all(buf, matched_at(t, spans_of(t)[k]), c), cs, k + 1),
        }
    }
}

/// The bundle of main text `t`, where `cs[k]` holds the contents of the
/// package named by the `k`-th directive, or nothing when it was not found:
/// the bundled text, or the name of the first package that was not found.
/// Directives that repeat an earlier directive's text are not looked at.
pub open spec fn bundle_of(t: Seq<char>, cs: Seq<Option<Seq<char>>>) -> Result<Seq<char>, Seq<char>> {
    bundle_from(t, t, cs, 0)
}

/// `r` is the library's rendering of the spec result `b`.
pub open spec fn result_is(r: Result<String, BundleError>, b: Result<Seq<char>, Seq<char>>) -> bool {
    match b {
        Ok(o) => r matches Ok(x) && x@ == o,
        Err(n) => r matches Err(BundleError::PackageNotFound(x)) && x@ == n,
    }
}

/// Whether directive `k` of `ds` has the same text as an earlier one.
fn seen_before(ds: &Vec<Directive>, k: usize) -> (b: bool)
    requires
        k < ds.len(),
    ensures
        b == exists|j: int| 0 <= j < k && ds@[j].matched@ == ds@[k as int].matched@,
{
    let mut j: usize = 0;
    while j < k
        invariant
            k < ds.len(),
            j <= k,
            forall|i: int| 0 <= i < j ==> ds@[i].matched@ != ds@[k as int].matched@,
        decreases k - j,
    {
        if ds[j].matched == ds[k].matched {
            return true;
        }
        j = j + 1;
    }
    false
}

/// Bundles main text `text`. `contents[k]` holds the contents of the file
/// found for the `k`-th directive of `text`, or `None` when none was found.
pub fn bundle_text(text: &String, contents: &Vec<Option<String>>) -> (r: Result<String, BundleError>)
    requires
        contents.len() == spans_of(text@).len(),
    ensures
        result_is(r, bundle_of(text@, contents_view(contents@))),
        spans_of(text@).len() == 1 ==> (contents@[0] matches Some(c) ==> (r matches Ok(o) && o@
            == text@.subrange(0, spans_of(text@)[0].0) + c@ + text@.skip(spans_of(text@)[0].1))),
{
    // neither `-` nor `)` is a word character, so a directive's text
    // occurs nowhere but where it was found
    let dash_is_word = is_word_char('-');
    let close_is_word = is_word_char(')');
    proof {
        assert(!dash_is_word && !close_is_word);
        if spans_of(text@).len() == 1 && contents@[0] is Some {
            let c = contents@[0]->0;
            assert(contents_view(contents@) =~= seq![Some(c@)]);
            lemma_single_directive_in_place(text@, c@);
        }
    }
    let ds = scan_directives(text);
    let ghost cs = contents_view(contents@);
    let ghost t = text@;
    let mut buf = chars_of(text.as_str());
    let mut k: usize = 0;
    while k < ds.len()
        invariant
            ds.len() == contents.len(),
            crate::directive::directives_match(ds@, t),
            cs == contents_view(contents@),
            cs.len() == ds.len(),
            t == text@,
            k <= ds.len(),
            bundle_of(t, cs) == bundle_from(t, buf@, cs, k as int),
        decreases ds.len() - k,
    {
        assert(ds@[k as int].found_in(t, spans_of(t)[k as int]));
        if seen_before(&ds, k) {
            proof {
                let j = choose|j: int| 0 <= j < k && ds@[j].matched@ == ds@[k as int].matched@;
                assert(ds@[j].found_in(t, spans_of(t)[j]));
                assert(repeats_earlier(t, k as int));
            }
            k = k + 1;
            continue;
        }
        assert(!repeats_earlier(t, k as int)) by {
            if repeats_earlier(t, k as int) {
                let j = choose|j: int|
                    0 <= j < k && matched_at(t, spans_of(t)[j]) == matched_at(t, spans_of(t)[k as int]);
                assert(ds@[j].found_in(t, spans_of(t)[j]));
            }
        }
        match &contents[k] {
            None => {
                assert(cs[k as int] is None);
                let n = ds[k].name.clone();
                return Err(BundleError::PackageNotFound(n));
            },
            Some(c) => {
                assert(cs[k as int] == Some(c@));
                let pat = chars_of(ds[k].matched.as_str());
                let rep = chars_of(c.as_str());
                buf = replace_all_exec(&buf, &pat, &rep);
            },
        }
        k = k + 1;
    }
    Ok(string_from_chars(&buf))
}

/// Bundles the main file named `main_name`, whose text is `main`, or `None`
/// when it could not be read. `contents` is as for `bundle_text`.
pub fn bundle(main_name: &String, main: Option<&String>, contents: &Vec<Option<String>>) -> (r: Result<
    String,
    BundleError,
>)
    requires
        main matches Some(t) ==> contents.len() == spans_of(t@).len(),
    ensures
        main is None ==> (r matches Err(BundleError::MainFileNotFound(n)) && n@ == main_name@),
        main matches Some(t) ==> result_is(r, bundle_of(t@, contents_view(contents@))),
{
    match main {
        None => Err(BundleError::MainFileNotFound(main_name.clone())),
        Some(t) => bundle_text(t, contents),
    }
}

/// Bundles like `bundle`, after checking that `contents` has one entry per
/// directive of the main text; `None` when it does not.
pub fn try_bundle(main_name: &String, main: Option<&String>, contents: &Vec<Option<String>>) -> (r:
    Option<Result<String, BundleError>>)
    ensures
        main is None ==> (r matches Some(Err(BundleError::MainFileNotFound(n))) && n@ == main_name@),
        main matches Some(t) ==> (contents.len() == spans_of(t@).len() <==> r is Some),
        main matches Some(t) ==> (r matches Some(x) ==> result_is(x, bundle_of(t@, contents_view(contents@)))),
{
    match main {
        None => Some(bundle(main_name, None, contents)),
        Some(t) => {
            let ds = scan_directives(t);
            if ds.len() == contents.len() {
                Some(bundle(main_name, Some(t), contents))
            } else {
                None
            }
        },
    }
}

/// A main text without directives is bundled into itself, unchanged.
pub proof fn lemma_no_directives_unchanged(t: Seq<char>, cs: Seq<Option<Seq<char>>>)
    requires
        spans_of(t).len() == 0,
        cs.len() == 0,
    ensures
        bundle_of(t, cs) == Ok::<Seq<char>, Seq<char>>(t),
{
}

/// With one directive whose package was found, the bundle is the main text
/// with every occurrence of that directive's exact text replaced by the
/// package's contents.
pub proof fn lemma_single_directive(t: Seq<char>, c: Seq<char>)
    requires
        spans_of(t).len() == 1,
    ensures
        bundle_of(t, seq![Some(c)]) == Ok::<Seq<char>, Seq<char>>(
            replace_all(t, matched_at(t, spans_of(t)[0]), c),
        ),
{
    let cs = seq![Some(c)];
    let b1 = replace_all(t, matched_at(t, spans_of(t)[0]), c);
    assert(bundle_from(t, b1, cs, 1) == Ok::<Seq<char>, Seq<char>>(b1));
}

/// With one directive, spanning `s..e`, whose package was found, the bundle
/// is the main text with exactly that span replaced by the package's
/// contents. This rests on `-` and `)` being no word characters.
proof fn lemma_single_directive_in_place(t: Seq<char>, c: Seq<char>)
    requires
        spans_of(t).len() == 1,
        !word_char_of('-'),
        !word_char_of(marker_close()),
    ensures
        bundle_of(t, seq![Some(c)]) == Ok::<Seq<char>, Seq<char>>(
            t.subrange(0, spans_of(t)[0].0) + c + t.skip(spans_of(t)[0].1),
        ),
{
    let sp = spans_of(t)[0];
    let m = matched_at(t, sp);
    lemma_first_span(t, 0);
    assert(spans_from(t, sp.1).len() == 0) by {
        assert(spans_of(t).len() == 1 + spans_from(t, sp.1).len());
    }
    assert(sp.0 < sp.1 <= t.len());
    assert forall|i: int| occurs_at(t, m, i) implies i == sp.0 by {
        lemma_occurrence_is_match(t, sp.0, sp.1, i);
        lemma_scan_reaches(t, 0, i);
        if i >= sp.1 {
            lemma_scan_reaches(t, sp.1, i);
        } else if i > sp.0 {
            lemma_no_inner_occurrence(t, sp.0, sp.1, i);
        }
    }
    assert(occurs_at(t, m, sp.0));
    lemma_replace_single(t, m, c, sp.0);
    lemma_single_directive(t, c);
}

/// When the same directive text appears twice, both occurrences are
/// replaced by the contents found for it, in one replacement step: the
/// bundle is the main text with every occurrence of that text replaced.
pub proof fn lemma_repeated_directive(t: Seq<char>, c: Seq<char>)
    requires
        spans_of(t).len() == 2,
        matched_at(t, spans_of(t)[0]) == matched_at(t, spans_of(t)[1]),
    ensures
        bundle_of(t, seq![Some(c), Some(c)]) == Ok::<Seq<char>, Seq<char>>(
            replace_all(t, matched_at(t, spans_of(t)[0]), c),
        ),
{
    let cs = seq![Some(c), Some(c)];
    let m = matched_at(t, spans_of(t)[0]);
    let b1 = replace_all(t, m, c);
    assert(repeats_earlier(t, 1));
    assert(bundle_from(t, b1, cs, 2) == Ok::<Seq<char>, Seq<char>>(b1));
    assert(bundle_from(t, b1, cs, 1) == Ok::<Seq<char>, Seq<char>>(b1));
}

/// Bundling from directive `j` on, with no package missing among the
/// directives before `k` and package `k` missing, its text seen for the first
/// time, fails with package `k`'s name.
proof fn lemma_missing_from(t: Seq<char>, buf: Seq<char>, cs: Seq<Option<Seq<char>>>, j: int, k: int)
    requires
        cs.len() == spans_of(t).len(),
        0 <= j <= k < cs.len(),
        cs[k] is None,
        !repeats_earlier(t, k),
        forall|i: int| j <= i < k ==> cs[i] is Some,
    ensures
        bundle_from(t, buf, cs, j) == Err::<Seq<char>, Seq<char>>(name_at(t, spans_of(t)[k])),
    decreases k - j,
{
    if j < k {
        let c = cs[j]->0;
        lemma_missing_from(t, buf, cs, j + 1, k);
        lemma_missing_from(t, replace_all(buf, matched_at(t, spans_of(t)[j]), c), cs, j + 1, k);
    }
}

/// When some package was not found, bundling fails, and names the first
/// package, in order of discovery, that was not found.
pub proof fn lemma_missing_package(t: Seq<char>, cs: Seq<Option<Seq<char>>>, k: int)
    requires
        cs.len() == spans_of(t).len(),
        0 <= k < cs.len(),
        cs[k] is None,
        !repeats_earlier(t, k),
        forall|i: int| 0 <= i < k ==> cs[i] is Some,
    ensures
        bundle_of(t, cs) == Err::<Seq<char>, Seq<char>>(name_at(t, spans_of(t)[k])),
{
    lemma_missing_from(t, t, cs, 0, k);
}

/// Bundling again a bundle that holds no directive gives it back unchanged.
pub proof fn lemma_rebundle_unchanged(t: Seq<char>, cs: Seq<Option<Seq<char>>>)
    requires
        cs.len() == spans_of(t).len(),
        bundle_of(t, cs) is Ok,
        spans_of(bundle_of(t, cs)->Ok_0).len() == 0,
    ensures
        bundle_of(bundle_of(t, cs)->Ok_0, Seq::empty()) == bundle_of(t, cs),
{
    lemma_no_directives_unchanged(bundle_of(t, cs)->Ok_0, Seq::empty());
}

} // verus!
