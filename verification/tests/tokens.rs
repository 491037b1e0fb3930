//! The token model: languages, event kinds, interning, fields and text order.

use codepolicy::event::EventKind;
use codepolicy::order::{compare_key, compare_text};
use codepolicy::report::write_json;
use codepolicy::text::{join_list, lower, split, Order};
use codepolicy::token::{Interner, Language, Token, TokenRef, NO_JMP};
use codepolicy::value::Datum;

#[test]
fn language_roundtrips_as_lowercase() {
    let j = write_json(&Datum::Text(Language::Typescript.name().to_string()));
    assert_eq!(j, "\"typescript\"");
    let name: String = serde_json::from_str("\"go\"").unwrap();
    let l = Language::from_name(&name).unwrap();
    assert_eq!(l, Language::Go);
    for l in [Language::Typescript, Language::Javascript, Language::Go, Language::Python, Language::Rust] {
        assert_eq!(Language::from_name(l.name()), Some(l));
    }
    assert_eq!(Language::from_name("Go"), None);
}

#[test]
fn eventkind_uses_pascalcase() {
    assert_eq!(
        write_json(&Datum::Text(EventKind::EnvAccess.name().to_string())),
        "\"EnvAccess\""
    );
    assert_eq!(EventKind::from_name("EnvAccess"), Some(EventKind::EnvAccess));
    assert_eq!(EventKind::from_name("env_access"), None);
}

#[test]
fn extensions_name_languages() {
    assert_eq!(Language::from_extension("tsx"), Some(Language::Typescript));
    assert_eq!(Language::from_extension("cjs"), Some(Language::Javascript));
    assert_eq!(Language::from_extension("go"), Some(Language::Go));
    assert_eq!(Language::from_extension("py"), Some(Language::Python));
    assert_eq!(Language::from_extension("rs"), Some(Language::Rust));
    assert_eq!(Language::from_extension(".rs"), None);
}

#[test]
fn interned_strings_resolve() {
    let mut i = Interner::default();
    let a = i.intern("a");
    let b = i.intern("b");
    assert_eq!(i.intern("a"), a);
    assert_ne!(a, b);
    assert_eq!((i.resolve(a), i.resolve(b)), ("a", "b"));
    assert_eq!(i.resolve(99), "");
}

#[test]
fn interning_more_strings_keeps_ids() {
    let mut i = Interner::new();
    let ids: Vec<u32> = ["a", "b", "c"].iter().map(|s| i.intern(s)).collect();
    for s in ["d", "b", "e"] {
        i.intern(s);
        assert_eq!(["a", "b", "c"].map(|s| i.intern(s)).to_vec(), ids);
    }
    assert_eq!(ids, vec![0, 1, 2]);
    assert_eq!(i.intern("e"), 4);
}

#[test]
fn fields_have_string_forms() {
    let mut interner = Interner::new();
    let token = Token {
        kind: interner.intern("identifier"),
        text: interner.intern("foo"),
        func: interner.intern("f"),
        class: interner.intern("ident"),
        named: true,
        start_byte: 10,
        end_byte: 25,
        start_line: 3,
        start_col: 1,
        end_line: 5,
        end_col: 2,
        curly: 1,
        round: 2,
        bracket: 3,
        jmp: NO_JMP,
    };
    let r = TokenRef { token: &token, interner: &interner };
    for (key, value) in [
        ("node_kind", "identifier"),
        ("class", "ident"),
        ("text", "foo"),
        ("function", "f"),
        ("named", "true"),
        ("curly_depth", "1"),
        ("round_depth", "2"),
        ("bracket_depth", "3"),
        ("range_lines", "3"),
        ("text_len", "15"),
    ] {
        assert_eq!(r.field_strings(key), vec![value], "{key}");
    }
    assert!(r.field_strings("colour").is_empty());
}

#[test]
fn texts_compare_by_code_point() {
    for (a, b) in [("", "a"), ("a", "b"), ("a", "aa"), ("Z", "a"), ("é", "😀"), ("\u{ffff}", "😀")] {
        assert_eq!(compare_text(a, b), Order::Less, "{a} {b}");
        assert_eq!(compare_text(b, a), Order::Greater);
        assert!(a < b);
    }
    assert_eq!(compare_text("x", "x"), Order::Equal);
    let k = |v: &[&str]| v.iter().map(|s| s.to_string()).collect::<Vec<String>>();
    assert_eq!(compare_key(&k(&["a", "z"]), &k(&["b"])), Order::Less);
    assert_eq!(compare_key(&k(&["a", "b"]), &k(&["a"])), Order::Greater);
    assert_eq!(compare_key(&k(&["a"]), &k(&["a"])), Order::Equal);
}

#[test]
fn texts_split_join_and_lower() {
    assert_eq!(split("a.b..c", '.'), vec!["a", "b", "", "c"]);
    assert_eq!(split("", '.'), vec![""]);
    assert_eq!(join_list(&split("a.b", '.'), "::"), "a::b");
    assert_eq!(lower("AbC-É"), "abc-É");
}

#[test]
fn lib_language_roundtrips_as_lowercase() {
    let j = write_json(&Datum::Text(Language::Typescript.name().to_string()));
    assert_eq!(j, "\"typescript\"");
    let name: String = serde_json::from_str("\"go\"").unwrap();
    assert_eq!(Language::from_name(&name), Some(Language::Go));
}
