//! Lexing TypeScript and JavaScript, manifests, and whole checks over source text.

use codepolicy::aggregate::run;
use codepolicy::dsl;
use codepolicy::event::{Event, EventKind};
use codepolicy::frontend::{
    capped, classify, frontend_for, frontends, tokenize, Frontend, SourceFile, TsJsFrontend,
};
use codepolicy::manifest::ManifestFrontend;
use codepolicy::matching::{MatchContext, Violation};
use codepolicy::project::read_waiver;
use codepolicy::syntax::SyntaxNode;
use codepolicy::token::{Language, TokenStream, NO_JMP};

fn source(text: &str) -> SourceFile<'_> {
    SourceFile { path: "x.ts".to_string(), text }
}

fn lex(path: &str, text: &str) -> TokenStream {
    let file = SourceFile { path: path.to_string(), text };
    TsJsFrontend.lex(&file).unwrap()
}

fn texts(ts: &TokenStream) -> Vec<&str> {
    ts.tokens.iter().map(|t| ts.interner.resolve(t.text)).collect()
}

#[test]
fn lexes_a_leaf_stream() {
    let src = "switch (x) { foo; \"a string\"; } // a comment";
    let ts = TsJsFrontend.lex(&source(src)).unwrap();
    let kinds: Vec<&str> = ts.tokens.iter().map(|t| ts.interner.resolve(t.kind)).collect();
    // Leaf lexemes: the `switch` keyword, the `foo` identifier, the whole
    // string literal as ONE token, and the comment.
    assert!(kinds.contains(&"switch"));
    assert!(kinds.contains(&"identifier"));
    assert!(kinds.contains(&"string"));
    assert!(kinds.contains(&"comment"));
    // No composite parse nodes; no string interior as a separate token.
    assert!(!kinds.contains(&"switch_statement"));
    assert!(!kinds.contains(&"statement_block"));
    assert!(!kinds.contains(&"string_fragment"));
}

#[test]
fn assigns_normalized_classes() {
    let ts = TsJsFrontend.lex(&source("const x = 1; // hi")).unwrap();
    let class_of = |nk: &str| {
        ts.tokens
            .iter()
            .find(|t| ts.interner.resolve(t.kind) == nk)
            .map(|t| ts.interner.resolve(t.class).to_string())
    };
    assert_eq!(class_of("identifier").as_deref(), Some("ident"));
    assert_eq!(class_of("number").as_deref(), Some("num"));
    assert_eq!(class_of("comment").as_deref(), Some("comment"));
    assert_eq!(class_of("const").as_deref(), Some("symbol"));
}

#[test]
fn jmp_links_matching_delimiters() {
    let ts = TsJsFrontend.lex(&source("function f() {}")).unwrap();
    let open = ts
        .tokens
        .iter()
        .position(|t| ts.interner.resolve(t.kind) == "{")
        .expect("an opening brace token");
    let j = ts.tokens[open].jmp;
    assert_ne!(j, NO_JMP, "brace should link to its match");
    assert_eq!(ts.interner.resolve(ts.tokens[j as usize].kind), "}");
    assert_eq!(ts.tokens[j as usize].jmp as usize, open);
}

#[test]
fn every_delimiter_of_balanced_source_is_linked() {
    let ts = lex("a.ts", "function f(a) { return [g({ x: [a] }), (1)]; }");
    let mut seen = 0;
    for (i, t) in ts.tokens.iter().enumerate() {
        if ["(", ")", "{", "}", "[", "]"].contains(&ts.interner.resolve(t.kind)) {
            seen += 1;
            assert_ne!(t.jmp, NO_JMP);
            assert_eq!(ts.tokens[t.jmp as usize].jmp as usize, i);
        }
    }
    assert_eq!(seen, 14);
}

#[test]
fn tokens_carry_positions_depths_and_functions() {
    let ts = lex("a.ts", "function f(a) {\n  g([a]);\n}");
    assert_eq!(texts(&ts), vec!["function", "f", "(", "a", ")", "{", "g", "(", "[", "a", "]", ")", ";", "}"]);
    assert_eq!(ts.language, Language::Typescript);
    assert_eq!(ts.file, "a.ts");
    let g = &ts.tokens[6];
    assert_eq!((g.start_line, g.start_col, g.end_line, g.end_col), (2, 3, 2, 4));
    assert_eq!((g.start_byte, g.end_byte), (18, 19));
    assert_eq!((g.curly, g.round, g.bracket), (1, 0, 0));
    assert_eq!(ts.interner.resolve(g.func), "f");
    let a = &ts.tokens[9];
    assert_eq!((a.curly, a.round, a.bracket), (1, 1, 1));
    assert!(a.named && !ts.tokens[2].named);
    let span = ts.span_of(a);
    assert_eq!((span.start_line, span.start_col, span.end_col), (2, 6, 7));
}

#[test]
fn text_past_ascii_is_sliced_by_bytes() {
    let ts = lex("a.ts", "// ä€😀\nconst ü = 1;");
    assert_eq!(texts(&ts)[0], "// ä€😀");
    assert!(texts(&ts).contains(&"ü"));
}

#[test]
fn long_text_is_cut_with_an_ellipsis() {
    assert_eq!(capped("short", 120), "short");
    let exact = "é".repeat(120);
    assert_eq!(capped(&exact, 120), exact);
    let long = "x".repeat(121);
    assert_eq!(capped(&long, 120), format!("{}…", "x".repeat(119)));
    assert_eq!(capped("abc", 2), "a…");
    assert_eq!(capped("abc", 1), "…");
    assert_eq!(capped("abc", 0), "");
    assert_eq!(capped("", 0), "");
    let ts = lex("a.ts", &format!("// {}", "y".repeat(200)));
    assert_eq!(texts(&ts)[0], format!("// {}…", "y".repeat(116)));
}

#[test]
fn classes_follow_the_kind() {
    for (kind, class) in [
        ("identifier", "ident"),
        ("property_identifier", "prop"),
        ("shorthand_property_identifier", "prop"),
        ("number", "num"),
        ("string", "str"),
        ("template_string", "str"),
        ("true", "bool"),
        ("false", "bool"),
        ("regex", "regex"),
        ("null", "null"),
        ("undefined", "undefined"),
        ("comment", "comment"),
        ("type_identifier", "other"),
    ] {
        assert_eq!(classify(kind, true), class);
    }
    assert_eq!(classify("switch", false), "symbol");
}

#[test]
fn the_extension_selects_the_language() {
    let fe = frontends();
    for path in ["a.ts", "b/c.tsx", "d.mts", "e.cts", "f.js", "g.jsx", "h.mjs", "i.cjs"] {
        assert!(frontend_for(&fe, path).is_some(), "{path}");
    }
    for path in ["a.rs", "Makefile", ".ts", "ts", "a.ts/..", ""] {
        assert!(frontend_for(&fe, path).is_none(), "{path}");
    }
    assert_eq!(fe[0].name(), "ts_js");
    assert_eq!(lex("a.jsx", "x").language, Language::Javascript);
    assert_eq!(lex("a.tsx", "x").language, Language::Typescript);
    // Only the tsx grammar reads an element; only the ts grammar reads a cast.
    assert!(texts(&lex("a.tsx", "<div>hi</div>")).contains(&"div"));
    assert!(texts(&lex("a.ts", "<T>x")).contains(&"T"));
}

fn leaf(kind: &str, lo: usize, hi: usize) -> SyntaxNode {
    SyntaxNode {
        kind: kind.to_string(),
        named: false,
        start_byte: lo,
        end_byte: hi,
        start_row: 0,
        start_col: lo,
        end_row: 0,
        end_col: hi,
        name: None,
        children: vec![],
    }
}

#[test]
fn a_tree_becomes_a_stream() {
    // `({)}` : the curly pair is broken by the round one, which stays unlinked.
    let mut root = leaf("program", 0, 6);
    root.children = vec![
        leaf("(", 0, 1),
        leaf("{", 1, 2),
        leaf(")", 2, 3),
        leaf("}", 3, 4),
        leaf("[", 4, 5),
        leaf("]", 5, 6),
    ];
    let (interner, tokens) = tokenize(&root, "({)}[]");
    let jmps: Vec<u32> = tokens.iter().map(|t| t.jmp).collect();
    assert_eq!(jmps, vec![NO_JMP, 3, NO_JMP, 1, 5, 4]);
    assert_eq!(interner.resolve(tokens[0].text), "(");
    assert_eq!(interner.resolve(tokens[0].class), "symbol");
    // Bytes that are not whole characters have no text.
    let (interner, tokens) = tokenize(&leaf("x", 1, 2), "é");
    assert_eq!(interner.resolve(tokens[0].text), "");
    let (interner, tokens) = tokenize(&leaf("x", 0, 9), "é");
    assert_eq!(interner.resolve(tokens[0].text), "");
}

#[test]
fn a_literal_is_one_token_whatever_is_below() {
    let mut string = leaf("string", 0, 3);
    string.children = vec![leaf("string_fragment", 1, 2)];
    let mut root = leaf("program", 0, 3);
    root.children = vec![string];
    let (interner, tokens) = tokenize(&root, "'a'");
    assert_eq!(tokens.len(), 1);
    assert_eq!(interner.resolve(tokens[0].kind), "string");
    assert_eq!(interner.resolve(tokens[0].text), "'a'");
}

// ---------------------------------------------------------------------------
// Whole checks
// ---------------------------------------------------------------------------

fn check(files: &[(&str, &str)], src: &str) -> Vec<Violation> {
    let (rules, _) = dsl::load(src).unwrap();
    let streams: Vec<TokenStream> = files.iter().map(|(p, t)| lex(p, t)).collect();
    run(&rules, &streams, &MatchContext::default())
}

fn count(v: &[Violation], id: &str) -> usize {
    v.iter().filter(|x| x.rule_id == id).count()
}

const TOKEN_REPO: &[(&str, &str)] = &[("apps/x.ts", "const a = \"switch\";\nswitch (a) { default: b(); }\n")];

const CLASS_REPO: &[(&str, &str)] =
    &[("apps/x.ts", "const pumbaA = 1;\nconst pumbaB = \"pumbaZ\";\n// pumbaC\n")];

const TOKREL_REPO: &[(&str, &str)] = &[
    (
        "apps/x.ts",
        "function f() {\n  debugger;\n  return 1;\n}\nfunction g() {\n  debugger;\n  debugger;\n}\n",
    ),
    ("apps/y.ts", "foo(1);\nfoo(2);\n"),
];

#[test]
fn token_single_match() {
    let v = check(
        TOKEN_REPO,
        r#"rule NO_SWITCH (warning) { match Token[node_kind = "switch"] message "x" }"#,
    );
    assert_eq!(v.len(), 1, "{v:#?}");
    assert_eq!(v[0].rule_id, "NO_SWITCH");
    assert_eq!(v[0].span.start_line, 2);
}

#[test]
fn exact_lexeme_and_bare_regex() {
    let v = check(
        TOKEN_REPO,
        r#"
rule EXACT (warning) { match Token[text = "switch"] message "x" }
rule REGEX (warning) { match /^sw/ message "x" }
"#,
    );
    assert_eq!(count(&v, "EXACT"), 1, "{v:#?}");
    assert_eq!(count(&v, "REGEX"), 1, "{v:#?}");
}

#[test]
fn at_class_matches_variables() {
    let v = check(CLASS_REPO, r#"rule PUMBA (warning) { match @ident & /^pumba/ message "x" }"#);
    let texts: Vec<&str> = v.iter().map(|x| x.matched.text.as_str()).collect();
    assert_eq!(texts, vec!["pumbaA", "pumbaB"], "{v:#?}");
}

#[test]
fn token_sequence_in_scope() {
    let v = check(
        TOKREL_REPO,
        r#"
rule TWO_DEBUGGERS (warning) {
  sequence in scope {
    Token[node_kind = "debugger"]
    any *
    Token[node_kind = "debugger"]
    any *
  }
  message "x"
}
"#,
    );
    assert_eq!(v.len(), 1, "only block g has a pair: {v:#?}");
    assert_eq!(v[0].span.start_line, 6);
}

#[test]
fn token_where_scope() {
    let v = check(
        TOKREL_REPO,
        r#"
rule DBG_IN_RETURNING (warning) {
  match Token[node_kind = "debugger"]
  where scope contains Token[node_kind = "return"]
  message "x"
}
"#,
    );
    assert_eq!(v.len(), 1, "{v:#?}");
    assert_eq!(v[0].span.start_line, 2);
}

#[test]
fn token_backreference() {
    let v = check(
        TOKREL_REPO,
        r#"
rule REPEAT (warning) {
  sequence {
    Token[class = "ident"] as n = text
    any *
    Token[class = "ident", text == $n]
    any *
  }
  message "x"
}
"#,
    );
    assert_eq!(v.len(), 1, "{v:#?}");
    assert!(v[0].file.as_str().ends_with("y.ts"));
}

#[test]
fn aggregation_by_function_over_a_token_rule() {
    let v = check(
        TOKREL_REPO,
        r#"
rule dbg (warning) { match Token[node_kind = "debugger"] }
rule TOO_MANY (error) {
  count dbg per function > 1
  message "x"
}
"#,
    );
    let agg: Vec<_> = v.iter().filter(|x| x.rule_id == "TOO_MANY").collect();
    assert_eq!(agg.len(), 1, "only g exceeds: {v:#?}");
    assert_eq!(agg[0].span.start_line, 6);
}

#[test]
fn compose_combines_two_lexeme_rules_by_function() {
    let v = check(
        TOKREL_REPO,
        r#"
rule HAS_DEBUGGER (warning) { match Token[node_kind = "debugger"] }
rule HAS_RETURN (warning) { match Token[node_kind = "return"] }
rule BOTH (error) {
  compose intersection of HAS_DEBUGGER, HAS_RETURN by function
  message "x"
}
"#,
    );
    let both: Vec<_> = v.iter().filter(|x| x.rule_id == "BOTH").collect();
    assert_eq!(both.len(), 1, "{v:#?}");
    assert_eq!(both[0].matched.function, "f");
}

const BUNDLED: &str = r#"
rule NO_DEBUGGER (error) {
  lang typescript, javascript
  match debugger
  message "Remove debugger statements."
}

rule NO_CONSOLE (warning) {
  lang typescript, javascript
  not in "**/scripts/**"
  match @ident & /^console$/
  message "Use the project's logger in place of console."
}

rule NO_LOOSE_EQUALITY (error) {
  lang typescript, javascript
  match Token[text in ["==", "!="]]
  message "Compare with === or !==."
}

rule TODO_NEEDS_ISSUE (warning) {
  match @comment & /TODO/ & ^/\(#\d+\)/
  message "Name an issue, as in TODO(#123)."
}
"#;

const STARTER: &str =
    "// TODO tidy\n// TODO(#12) later\nfunction f(a) {\n  debugger;\n  console.log(\"== debugger\", a == 1);\n}\n";

#[test]
fn bundled_pack_fires_expected_rules() {
    let v = check(&[("apps/x.ts", STARTER)], BUNDLED);
    assert_eq!(count(&v, "NO_DEBUGGER"), 1, "{v:#?}");
    assert_eq!(count(&v, "NO_CONSOLE"), 1, "{v:#?}");
    assert_eq!(count(&v, "NO_LOOSE_EQUALITY"), 1, "{v:#?}");
    assert_eq!(count(&v, "TODO_NEEDS_ISSUE"), 1, "{v:#?}");
}

#[test]
fn waiver_suppresses_a_rule_in_one_file() {
    let (rules, _) = dsl::load(BUNDLED).unwrap();
    let waiver = read_waiver("rule: NO_DEBUGGER\nfile: apps/x.ts\n").unwrap().unwrap();
    let ctx = MatchContext { waivers: vec![waiver], adrs: vec![] };
    let v = run(&rules, &[lex("apps/x.ts", STARTER)], &ctx);
    assert_eq!(count(&v, "NO_DEBUGGER"), 0, "waived: {v:#?}");
    assert_eq!(count(&v, "NO_CONSOLE"), 1);
}

// ---------------------------------------------------------------------------
// Manifests
// ---------------------------------------------------------------------------

fn extract(text: &str) -> Result<Vec<Event>, String> {
    ManifestFrontend.extract(&SourceFile { path: "package.json".to_string(), text })
}

#[test]
fn a_manifest_has_an_event_for_each_dependency() {
    let text = r#"{
        "peerDependencies": { "p": "1" },
        "dependencies": { "zod": "^3", "axios": { "v": 1 } },
        "devDependencies": ["not", "an", "object"],
        "scripts": { "a": "b" }
    }"#;
    let events = extract(text).unwrap();
    let names: Vec<String> = events.iter().map(|e| e.attr_strings("name")[0].clone()).collect();
    assert_eq!(names, vec!["axios", "zod", "p"]);
    assert!(events.iter().all(|e| e.kind == EventKind::PackageAdded && e.language == Language::Javascript));
    assert_eq!(events[1].attr_strings("version"), vec!["^3"]);
    assert!(events[0].attr_strings("version").is_empty());
    assert_eq!(events[2].attr_strings("section"), vec!["peerDependencies"]);
    assert_eq!((events[0].span.start_line, events[0].span.end_col), (1, 1));
    assert!(extract("[]").unwrap().is_empty());
}

#[test]
fn a_broken_manifest_is_reported() {
    let e = extract("{").unwrap_err();
    assert!(e.starts_with("invalid package.json package.json: EOF while parsing"), "{e}");
    assert!(ManifestFrontend.supports_file("a/package.json"));
    assert!(!ManifestFrontend.supports_file("a/package.json.bak"));
    assert!(!ManifestFrontend.supports_file("/"));
    assert_eq!(ManifestFrontend.name(), "manifest");
}
