use lua_bundler::directive::{directive_text, scan_directives};
use lua_bundler::locator::{find_package, package_file_name, resolve_packages, Entry, Package};

fn entry(path: &str, name: Option<&str>, is_file: bool) -> Entry {
    Entry { path: path.to_owned(), file_name: name.map(|n| n.to_owned()), is_file }
}

#[test]
fn file_name_gets_extension() {
    assert_eq!(package_file_name("utils"), "utils.lua");
    assert_eq!(package_file_name("utils.lua"), "utils.lua");
    assert_eq!(package_file_name("lua"), "lua.lua");
    assert_eq!(package_file_name("a.luax"), "a.luax.lua");
    assert_eq!(package_file_name(""), ".lua");
}

#[test]
fn find_takes_first_regular_file() {
    let es = vec![
        entry("p/utils.lua", Some("utils.lua"), false),
        entry("p/other.lua", Some("other.lua"), true),
        entry("p/x/utils.lua", Some("utils.lua"), true),
        entry("p/y/utils.lua", Some("utils.lua"), true),
    ];
    assert_eq!(find_package("utils", &es), Some(2));
    assert_eq!(find_package("utils.lua", &es), Some(2));
    assert_eq!(find_package("other", &es), Some(1));
}

#[test]
fn find_misses() {
    let es = vec![entry("p/utilsx.lua", Some("utilsx.lua"), true), entry("p/bad", None, true)];
    assert_eq!(find_package("utils", &es), None);
    assert_eq!(find_package("utils", &Vec::new()), None);
}

#[test]
fn resolve_gives_paths_in_order() {
    let main = format!("{}\n{}\n", directive_text("a"), directive_text("gone"));
    let ds = scan_directives(&main);
    let es = vec![entry("root/lib/a.lua", Some("a.lua"), true)];
    let ps = resolve_packages(&ds, &es);
    assert_eq!(ps.len(), 2);
    assert_eq!(ps[0].name, "a");
    assert_eq!(ps[0].path.as_deref(), Some("root/lib/a.lua"));
    assert_eq!(ps[1].name, "gone");
    assert_eq!(ps[1].path, None);
    assert_eq!(ps[1].matched.matched, directive_text("gone"));
}

#[test]
fn package_new_keeps_fields() {
    let main = directive_text("m");
    let d = scan_directives(&main).remove(0);
    let p = Package::new("m".to_owned(), d, Some("x/m.lua".to_owned()));
    assert_eq!(p.name, "m");
    assert_eq!(p.matched.name, "m");
    assert_eq!(p.path.as_deref(), Some("x/m.lua"));
}
