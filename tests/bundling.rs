use lua_bundler::bundle::{bundle, bundle_text, try_bundle, BundleError};
use lua_bundler::directive::{directive_text, scan_directives};

fn text(s: &str) -> String {
    s.to_owned()
}

fn contents(cs: &[Option<&str>]) -> Vec<Option<String>> {
    cs.iter().map(|c| c.map(|x| x.to_owned())).collect()
}

#[test]
fn example_scenario() {
    let main = format!("print(\"start\")\n{}\nprint(\"end\")\n", directive_text("utils"));
    let out = bundle_text(&main, &contents(&[Some("print(\"utils loaded\")")])).unwrap();
    assert_eq!(out, "print(\"start\")\nprint(\"utils loaded\")\nprint(\"end\")\n");
}

#[test]
fn no_directives_is_unchanged() {
    let main = text("local x = 1\nprint(x) -- a comment (with parens)\n");
    assert_eq!(bundle_text(&main, &Vec::new()).unwrap(), main);
}

#[test]
fn empty_main_is_unchanged() {
    assert_eq!(bundle_text(&text(""), &Vec::new()).unwrap(), "");
}

#[test]
fn single_directive_is_replaced() {
    let main = format!("a {} b", directive_text("lib"));
    let out = bundle_text(&main, &contents(&[Some("X\nY")])).unwrap();
    assert_eq!(out, "a X\nY b");
}

#[test]
fn repeated_directive_replaced_everywhere() {
    let d = directive_text("lib");
    let main = format!("{}\nmid\n{}\n", d, d);
    assert_eq!(scan_directives(&main).len(), 2);
    let out = bundle_text(&main, &contents(&[Some("L"), Some("L")])).unwrap();
    assert_eq!(out, "L\nmid\nL\n");
}

#[test]
fn repeated_directive_is_substituted_once() {
    let d = directive_text("a");
    let main = format!("{}\n{}", d, d);
    let c = format!("x{}", d);
    let out = bundle_text(&main, &contents(&[Some(c.as_str()), Some(c.as_str())])).unwrap();
    assert_eq!(out, format!("{}\n{}", c, c));
}

#[test]
fn repeated_directive_needs_one_resolution() {
    let d = directive_text("a");
    let main = format!("{} {} {}", d, directive_text("b"), d);
    let out = bundle_text(&main, &contents(&[Some("A"), Some("B"), None])).unwrap();
    assert_eq!(out, "A B A");
}

#[test]
fn missing_package_fails() {
    let main = format!("{}\n{}\n", directive_text("here"), directive_text("missing"));
    let r = bundle_text(&main, &contents(&[Some("ok"), None]));
    assert_eq!(r, Err(BundleError::PackageNotFound(text("missing"))));
}

#[test]
fn first_missing_package_is_reported() {
    let main = format!("{}{}{}", directive_text("a"), directive_text("b"), directive_text("c"));
    let r = bundle_text(&main, &contents(&[Some("1"), None, None]));
    assert_eq!(r, Err(BundleError::PackageNotFound(text("b"))));
}

#[test]
fn missing_main_file_fails() {
    let r = bundle(&text("main.lua"), None, &Vec::new());
    assert_eq!(r, Err(BundleError::MainFileNotFound(text("main.lua"))));
}

#[test]
fn present_main_file_is_bundled() {
    let main = format!("{}!", directive_text("m"));
    let r = bundle(&text("main.lua"), Some(&main), &contents(&[Some("body")]));
    assert_eq!(r, Ok(text("body!")));
}

#[test]
fn rebundling_a_bundle_is_unchanged() {
    let main = format!("start\n{}\nend", directive_text("utils"));
    let once = bundle_text(&main, &contents(&[Some("u()")])).unwrap();
    assert!(scan_directives(&once).is_empty());
    let twice = bundle_text(&once, &Vec::new()).unwrap();
    assert_eq!(twice, once);
}

#[test]
fn later_directive_replaces_text_brought_in_earlier() {
    let main = format!("{} {}", directive_text("a"), directive_text("b"));
    let brought = format!("[{}]", directive_text("b"));
    let out = bundle_text(&main, &contents(&[Some(brought.as_str()), Some("B")])).unwrap();
    assert_eq!(out, "[B] B");
}

#[test]
fn contents_are_not_rescanned() {
    let main = format!("{}", directive_text("a"));
    let brought = directive_text("zzz");
    let out = bundle_text(&main, &contents(&[Some(brought.as_str())])).unwrap();
    assert_eq!(out, brought);
}

#[test]
fn try_bundle_checks_contents_length() {
    let main = format!("{}", directive_text("a"));
    assert_eq!(try_bundle(&text("main.lua"), Some(&main), &Vec::new()), None);
    assert_eq!(
        try_bundle(&text("main.lua"), Some(&main), &contents(&[Some("A")])),
        Some(Ok(text("A")))
    );
    assert_eq!(
        try_bundle(&text("m.lua"), None, &contents(&[Some("A")])),
        Some(Err(BundleError::MainFileNotFound(text("m.lua"))))
    );
}
