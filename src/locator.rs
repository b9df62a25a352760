//! Choosing the file that a package name refers to among the entries of a
//! walk over the project directory.
use vstd::prelude::*;
use crate::directive::Directive;
use crate::text::{append_chars, chars_of, string_from_chars};

verus! {

/// The script file extension, `.lua`.
pub open spec fn script_ext() -> Seq<char> {
    seq!['.', 'l', 'u', 'a']
}

/// Whether `s` ends with `suffix`.
pub open spec fn ends_with(s: Seq<char>, suffix: Seq<char>) -> bool {
    suffix.len() <= s.len() && s.subrange(s.len() - suffix.len(), s.len() as int) == suffix
}

/// The file name that package `name` is looked up under: the name itself
/// when it already ends with the script extension, else the name with the
/// extension appended.
pub open spec fn file_name_for(name: Seq<char>) -> Seq<char> {
    if ends_with(name, script_ext()) {
        name
    } else {
        name + script_ext()
    }
}

/// One entry met while walking the project directory.
#[derive(Clone, Debug)]
pub struct Entry {
    /// The entry's full path.
    pub path: String,
    /// The entry's base file name, when it is valid UTF-8.
    pub file_name: Option<String>,
    /// Whether the entry is a regular file.
    pub is_file: bool,
}

/// Entry `e` is a file whose base name is exactly `file_name`.
pub open spec fn entry_matches(e: Entry, file_name: Seq<char>) -> bool {
    &&& e.is_file
    &&& match e.file_name {
        Some(n) => n@ == file_name,
        None => false,
    }
}

/// Entry `j` of `es` is the first one that is the file `file_name`.
pub open spec fn first_match_at(es: Seq<Entry>, file_name: Seq<char>, j: int) -> bool {
    &&& 0 <= j < es.len()
    &&& entry_matches(es[j], file_name)
    &&& forall|i: int| 0 <= i < j ==> !entry_matches(#[trigger] es[i], file_name)
}

/// No entry of `es` is the file `file_name`.
pub open spec fn no_match(es: Seq<Entry>, file_name: Seq<char>) -> bool {
    forall|i: int| 0 <= i < es.len() ==> !entry_matches(#[trigger] es[i], file_name)
}

/// `path` is where package `name` is found among `es`: the path of the first
/// matching entry, or nothing when none matches.
pub open spec fn located(es: Seq<Entry>, name: Seq<char>, path: Option<String>) -> bool {
    match path {
        Some(p) => exists|j: int| first_match_at(es, file_name_for(name), j) && #[trigger] es[j].path@ == p@,
        None => no_match(es, file_name_for(name)),
    }
}

/// A package named by a directive, with the file found for it, if any.
#[derive(Debug)]
pub struct Package {
    /// The package name.
    pub name: String,
    /// The directive that names the package.
    pub matched: Directive,
    /// Path of the file found for the package.
    pub path: Option<String>,
}

impl Package {
    /// A package of the given name, directive and path.
    pub fn new(name: String, matched: Directive, path: Option<String>) -> (r: Package)
        ensures
            r.name == name,
            r.matched == matched,
            r.path == path,
    {
        Package { name, matched, path }
    }
}

/// The file name that package `name` is looked up under.
pub fn package_file_name(name: &str) -> (r: String)
    ensures
        r@ == file_name_for(name@),
{
    let mut v = chars_of(name);
    let ext = vec!['.', 'l', 'u', 'a'];
    assert(ext@ =~= script_ext());
    let n = v.len();
    let has_ext = n >= 4 && crate::text::occurs_at_exec(&v, &ext, n - 4);
    if !has_ext {
        append_chars(&mut v, &ext);
    }
    string_from_chars(&v)
}

/// Whether entry `e` is a file whose base name is exactly `file_name`.
pub fn entry_matches_exec(e: &Entry, file_name: &String) -> (b: bool)
    ensures
        b == entry_matches(*e, file_name@),
{
    if !e.is_file {
        return false;
    }
    match &e.file_name {
        Some(n) => *n == *file_name,
        None => false,
    }
}

/// Finds the file that package `name` refers to: the first entry, in the
/// order given, that is a regular file whose base name is the package's file
/// name. `None` when no entry is.
pub fn find_package(name: &str, entries: &Vec<Entry>) -> (r: Option<usize>)
    ensures
        r matches Some(k) ==> first_match_at(entries@, file_name_for(name@), k as int),
        r is None ==> no_match(entries@, file_name_for(name@)),
{
    let target = package_file_name(name);
    let mut k: usize = 0;
    while k < entries.len()
        invariant
            target@ == file_name_for(name@),
            k <= entries.len(),
            forall|j: int| 0 <= j < k ==> !entry_matches(#[trigger] entries@[j], file_name_for(name@)),
        decreases entries.len() - k,
    {
        if entry_matches_exec(&entries[k], &target) {
            return Some(k);
        }
        k = k + 1;
    }
    None
}

/// The package of each directive, in order, with the path of the file that
/// its name refers to among `entries`.
pub fn resolve_packages(directives: &Vec<Directive>, entries: &Vec<Entry>) -> (r: Vec<Package>)
    ensures
        r.len() == directives.len(),
        forall|k: int|
            0 <= k < r.len() ==> {
                &&& (#[trigger] r@[k]).name == directives@[k].name
                &&& r@[k].matched == directives@[k]
                &&& located(entries@, directives@[k].name@, r@[k].path)
            },
{
    let mut r: Vec<Package> = Vec::new();
    let mut k: usize = 0;
    while k < directives.len()
        invariant
            k <= directives.len(),
            r.len() == k,
            forall|i: int|
                0 <= i < k ==> {
                    &&& (#[trigger] r@[i]).name == directives@[i].name
                    &&& r@[i].matched == directives@[i]
                    &&& located(entries@, directives@[i].name@, r@[i].path)
                },
        decreases directives.len() - k,
    {
        let d = &directives[k];
        let path = match find_package(d.name.as_str(), entries) {
            Some(j) => {
                let p = entries[j].path.clone();
                assert(first_match_at(entries@, file_name_for(d.name@), j as int) && entries@[j as int].path@ == p@);
                Some(p)
            },
            None => None,
        };
        assert(located(entries@, d.name@, path));
        r.push(Package::new(d.name.clone(), d.duplicate(), path));
        k = k + 1;
    }
    r
}

} // verus!
