use lua_bundler::directive::{directive_text, scan_directives};
use lua_bundler::text::{chars_of, occurs_at_exec, replace_all_exec};

#[test]
fn directive_text_wraps_name() {
    let d = directive_text("utils");
    assert!(d.starts_with("--#"));
    assert!(d.ends_with("(utils)"));
    assert_eq!(d.len(), 17);
}

#[test]
fn scan_finds_directive_and_name() {
    let d = directive_text("utils");
    let main = format!("ab\n{}\ncd", d);
    let ds = scan_directives(&main);
    assert_eq!(ds.len(), 1);
    assert_eq!(ds[0].name, "utils");
    assert_eq!(ds[0].matched, d);
    assert_eq!(ds[0].start, 3);
    assert_eq!(ds[0].end, 3 + d.chars().count());
}

#[test]
fn scan_finds_nothing_without_directives() {
    assert!(scan_directives(&"print('hi')".to_owned()).is_empty());
    assert!(scan_directives(&String::new()).is_empty());
}

#[test]
fn scan_rejects_non_word_names() {
    for name in ["a-b", "a.b", "a/b", "", "\"q\"", "a b"] {
        let main = directive_text(name);
        assert!(scan_directives(&main).is_empty(), "{name}");
    }
}

#[test]
fn scan_accepts_word_names() {
    for name in ["a", "A_9", "_", "caf\u{e9}", "\u{3b1}\u{3b2}"] {
        let main = directive_text(name);
        let ds = scan_directives(&main);
        assert_eq!(ds.len(), 1, "{name}");
        assert_eq!(ds[0].name, name);
    }
}

#[test]
fn scan_needs_closing_parenthesis() {
    let d = directive_text("abc");
    let open = &d[..d.len() - 1];
    assert!(scan_directives(&format!("{} ", open)).is_empty());
    assert!(scan_directives(&open.to_owned()).is_empty());
}

#[test]
fn scan_finds_adjacent_and_repeated() {
    let main = format!("{}{}x{}", directive_text("a"), directive_text("b"), directive_text("a"));
    let ds = scan_directives(&main);
    let names: Vec<&str> = ds.iter().map(|d| d.name.as_str()).collect();
    assert_eq!(names, vec!["a", "b", "a"]);
    assert_eq!(ds[1].start, ds[0].end);
}

#[test]
fn scan_counts_characters_not_bytes() {
    let main = format!("\u{e9}\u{e9}{}", directive_text("k"));
    let ds = scan_directives(&main);
    assert_eq!(ds[0].start, 2);
}

#[test]
fn replace_all_left_to_right() {
    let s = chars_of("aaa");
    let p = chars_of("aa");
    let r = chars_of("b");
    assert_eq!(replace_all_exec(&s, &p, &r), chars_of("ba"));
    let s = chars_of("xaxa");
    assert_eq!(replace_all_exec(&s, &chars_of("a"), &chars_of("")), chars_of("xx"));
}

#[test]
fn replace_with_empty_pattern_is_identity() {
    let s = chars_of("abc");
    assert_eq!(replace_all_exec(&s, &Vec::new(), &chars_of("z")), s);
}

#[test]
fn occurs_at_positions() {
    let s = chars_of("hello");
    assert!(occurs_at_exec(&s, &chars_of("ll"), 2));
    assert!(!occurs_at_exec(&s, &chars_of("ll"), 3));
    assert!(!occurs_at_exec(&s, &chars_of("lo!"), 3));
    assert!(occurs_at_exec(&s, &chars_of(""), 5));
}
