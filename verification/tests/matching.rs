//! Matching, aggregation and ordering over hand-made token streams.

use codepolicy::aggregate::{compare_path, run, summarize};
use codepolicy::dsl;
use codepolicy::matching::{guard_verdict, AdrRecord, MatchContext, Violation, WaiverRecord};
use codepolicy::outside::Part;
use codepolicy::rules::{regex_verdict, scope_verdict, CompiledRule};
use codepolicy::schema::Severity;
use codepolicy::text::Order;
use codepolicy::token::{Interner, Language, Token, TokenStream, NO_JMP};

/// Build a token stream from `(node_kind, class, text, function, start)` rows.
fn stream(file: &str, rows: &[(&str, &str, &str, &str, u32)]) -> TokenStream {
    let mut interner = Interner::default();
    let tokens = rows
        .iter()
        .map(|(nk, cls, txt, func, start)| Token {
            kind: interner.intern(nk),
            text: interner.intern(txt),
            func: interner.intern(func),
            class: interner.intern(cls),
            named: true,
            start_byte: *start,
            end_byte: start + 1,
            start_line: start + 1,
            start_col: 1,
            end_line: start + 1,
            end_col: 2,
            curly: 0,
            round: 0,
            bracket: 0,
            jmp: NO_JMP,
        })
        .collect();
    TokenStream {
        file: file.to_string(),
        language: Language::Typescript,
        interner,
        tokens,
    }
}

/// A stream of words, each its own identifier, with the delimiters linked.
fn words(file: &str, text: &str) -> TokenStream {
    let rows: Vec<(&str, &str, &str, &str, u32)> = text
        .split_whitespace()
        .enumerate()
        .map(|(i, w)| match w {
            "{" | "}" | "(" | ")" | "[" | "]" => (w, "symbol", w, "", i as u32),
            _ => ("identifier", "ident", w, "", i as u32),
        })
        .collect();
    let mut ts = stream(file, &rows);
    let mut open: Vec<usize> = Vec::new();
    for i in 0..ts.tokens.len() {
        match rows[i].0 {
            "{" | "(" | "[" => open.push(i),
            "}" | ")" | "]" => {
                let o = open.pop().unwrap();
                ts.tokens[o].jmp = i as u32;
                ts.tokens[i].jmp = o as u32;
            }
            _ => {}
        }
    }
    ts
}

fn load(src: &str) -> Vec<CompiledRule> {
    match dsl::load(src) {
        Ok((rules, _)) => rules,
        Err(e) => panic!("{}", e.0),
    }
}

fn check(src: &str, streams: &[TokenStream]) -> Vec<Violation> {
    run(&load(src), streams, &MatchContext::default())
}

fn hits(v: &[Violation], id: &str) -> Vec<String> {
    v.iter()
        .filter(|x| x.rule_id == id)
        .map(|x| format!("{}@{}", x.matched.text, x.span.start_byte))
        .collect()
}

#[test]
fn single_token_match() {
    let rules = load(r#"rule D (error) { match debugger }"#);
    let ts = stream(
        "a.ts",
        &[
            ("debugger", "symbol", "debugger", "f", 0),
            ("identifier", "ident", "x", "f", 10),
        ],
    );
    let v = run(&rules, &[ts], &MatchContext::default());
    assert_eq!(v.len(), 1);
    assert_eq!(v[0].rule_id, "D");
    assert_eq!(v[0].matched.node_kind, "debugger");
}

#[test]
fn token_sequence_backreference() {
    // The same identifier text appears twice -> fires.
    let src = r#"
        rule REPEAT (warning) {
          sequence {
            n:@ident
            any *
            :n
            any *
          }
        }
    "#;
    let rules = load(src);
    let dup = stream(
        "a.ts",
        &[
            ("identifier", "ident", "foo", "f", 0),
            ("identifier", "ident", "bar", "f", 10),
            ("identifier", "ident", "foo", "f", 20),
        ],
    );
    assert_eq!(run(&rules, &[dup], &MatchContext::default()).len(), 1);

    let uniq = stream(
        "b.ts",
        &[
            ("identifier", "ident", "foo", "f", 0),
            ("identifier", "ident", "bar", "f", 10),
        ],
    );
    assert!(run(&rules, &[uniq], &MatchContext::default()).is_empty());
}

#[test]
fn compose_intersection_by_function() {
    let src = r#"
        rule A (warning) { match acquire }
        rule B (warning) { match risky }
        rule BOTH (error) { compose intersection of A, B by file, function }
    "#;
    let rules = load(src);
    let ts = stream(
        "a.ts",
        &[
            ("identifier", "ident", "acquire", "f", 0),
            ("identifier", "ident", "risky", "f", 10),
            ("identifier", "ident", "acquire", "g", 20),
        ],
    );
    let v = run(&rules, &[ts], &MatchContext::default());
    let both: Vec<_> = v.iter().filter(|x| x.rule_id == "BOTH").collect();
    assert_eq!(both.len(), 1, "only f does both: {v:?}");
    assert_eq!(both[0].matched.function, "f");
}

#[test]
fn count_per_file_threshold() {
    let src = r#"
        rule DBG (warning) { match debugger }
        rule TOO_MANY (error) { count DBG per file > 2 message "too many" }
    "#;
    let rules = load(src);
    let many = stream(
        "a.ts",
        &[
            ("debugger", "symbol", "debugger", "f", 0),
            ("debugger", "symbol", "debugger", "f", 10),
            ("debugger", "symbol", "debugger", "f", 20),
        ],
    );
    let few = stream("b.ts", &[("debugger", "symbol", "debugger", "g", 0)]);
    let v = run(&rules, &[many, few], &MatchContext::default());
    let agg: Vec<_> = v.iter().filter(|x| x.rule_id == "TOO_MANY").collect();
    assert_eq!(agg.len(), 1, "only a.ts (3 > 2): {v:?}");
    assert_eq!(agg[0].file.as_str(), "a.ts");
    assert_eq!(agg[0].message.as_deref(), Some("too many"));
}

#[test]
fn trailing_negated_run_means_none_in_the_rest() {
    let src = "rule L (error) { sequence in scope { lock not unlock * } }";
    let bad = words("a.ts", "{ lock a b }");
    let good = words("b.ts", "{ lock a unlock b }");
    let v = check(src, &[bad, good]);
    assert_eq!(hits(&v, "L"), vec!["lock@1"]);
    assert_eq!(v[0].file, "a.ts");
}

#[test]
fn trailing_wildcard_takes_the_rest() {
    let src = "rule W (error) { sequence { a any * } }";
    assert_eq!(hits(&check(src, &[words("a.ts", "a b a")]), "W"), vec!["a@0", "a@2"]);
    // Without the wildcard the steps have to reach the end of the region.
    let src = "rule W (error) { sequence { a b } }";
    assert_eq!(hits(&check(src, &[words("a.ts", "a b a b")]), "W"), vec!["a@2"]);
}

#[test]
fn quantifiers_consume_as_many_as_they_say() {
    let one_or_more = "rule Q (error) { sequence { start x + stop } }";
    assert_eq!(check(one_or_more, &[words("a.ts", "start stop")]).len(), 0);
    assert_eq!(check(one_or_more, &[words("a.ts", "start x x x stop")]).len(), 1);
    let optional = "rule Q (error) { sequence { start x ? stop } }";
    assert_eq!(check(optional, &[words("a.ts", "start stop")]).len(), 1);
    assert_eq!(check(optional, &[words("a.ts", "start x stop")]).len(), 1);
    assert_eq!(check(optional, &[words("a.ts", "start x x stop")]).len(), 0);
    let negated = "rule Q (error) { sequence { start not x stop } }";
    assert_eq!(check(negated, &[words("a.ts", "start y stop")]).len(), 1);
    assert_eq!(check(negated, &[words("a.ts", "start x stop")]).len(), 0);
    assert_eq!(check(negated, &[words("a.ts", "start stop")]).len(), 0);
}

#[test]
fn choices_sets_and_carets_match() {
    let choice = "rule C (error) { sequence { validate any * ( save | commit ) } }";
    assert_eq!(check(choice, &[words("a.ts", "validate x commit")]).len(), 1);
    assert_eq!(check(choice, &[words("a.ts", "validate x drop")]).len(), 0);
    let set = "rule C (error) { sequence { validate . * [ save commit ] } }";
    assert_eq!(check(set, &[words("a.ts", "validate x save")]).len(), 1);
    let caret = "rule C (error) { sequence { a ^b } }";
    assert_eq!(check(caret, &[words("a.ts", "a c")]).len(), 1);
    assert_eq!(check(caret, &[words("a.ts", "a b")]).len(), 0);
    let caret_regex = "rule C (error) { match @ident & ^/^_/ }";
    assert_eq!(hits(&check(caret_regex, &[words("a.ts", "_x y")]), "C"), vec!["y@1"]);
}

#[test]
fn conjunction_keeps_every_atom() {
    let src = "rule C (error) { match /^a/ & /z$/ }";
    assert_eq!(hits(&check(src, &[words("a.ts", "az ab bz")]), "C"), vec!["az@0"]);
}

#[test]
fn a_token_in_nested_blocks_is_reported_once() {
    let src = "rule N (error) { sequence in scope { lock any * } }";
    let v = check(src, &[words("a.ts", "{ { lock x } y }")]);
    assert_eq!(hits(&v, "N"), vec!["lock@2"]);
}

#[test]
fn scope_clauses_read_the_innermost_block() {
    let contains = "rule S (error) { match dbg where scope contains ret }";
    // A nested block counts, and without a block around it the whole stream does.
    let ts = || words("a.ts", "{ dbg ret } { dbg { ret } } dbg");
    assert_eq!(hits(&check(contains, &[ts()]), "S"), vec!["dbg@1", "dbg@5", "dbg@10"]);
    let inner = || words("a.ts", "{ ret { dbg } }");
    assert_eq!(hits(&check(contains, &[inner()]), "S"), Vec::<String>::new());
    let without = "rule S (error) { match dbg where scope not contains ret }";
    assert_eq!(hits(&check(without, &[inner()]), "S"), vec!["dbg@3"]);
    let followed = "rule S (error) { match dbg where scope followed by ret }";
    let order = words("a.ts", "{ dbg ret } { ret dbg }");
    assert_eq!(hits(&check(followed, &[order]), "S"), vec!["dbg@1"]);
    // Clauses are all needed, and the token itself does not count.
    let both = "rule S (error) { match dbg where scope contains ret where scope not contains x }";
    assert_eq!(hits(&check(both, &[words("a.ts", "{ dbg ret x }")]), "S"), Vec::<String>::new());
    // So are several of one kind.
    let two = "rule S (error) { match dbg where scope contains a where scope contains b }";
    let ts = words("a.ts", "{ dbg a } { dbg b } { dbg b a }");
    assert_eq!(hits(&check(two, &[ts]), "S"), vec!["dbg@9"]);
    let two = "rule S (error) { match dbg where scope not contains a where scope not contains b }";
    let ts = words("a.ts", "{ dbg a } { dbg b } { dbg c }");
    assert_eq!(hits(&check(two, &[ts]), "S"), vec!["dbg@9"]);
    let two = "rule S (error) { match dbg where scope followed by a where scope followed by b }";
    let ts = words("a.ts", "{ a dbg b } { b dbg a } { dbg b a }");
    assert_eq!(hits(&check(two, &[ts]), "S"), vec!["dbg@11"]);
    let itself = "rule S (error) { match dbg where scope contains dbg }";
    assert_eq!(hits(&check(itself, &[words("a.ts", "{ dbg } { dbg dbg }")]), "S"), vec!["dbg@4", "dbg@5"]);
}

#[test]
fn union_and_difference_act_on_keys() {
    let base = "rule A (warning) { match a } rule B (warning) { match b } ";
    let streams = || vec![words("1.ts", "a"), words("2.ts", "b"), words("3.ts", "a b a")];
    let union = format!("{base} rule R (error) {{ compose union of A, B }}");
    let v = check(&union, &streams());
    let files: Vec<&str> = v.iter().filter(|x| x.rule_id == "R").map(|x| x.file.as_str()).collect();
    assert_eq!(files, vec!["1.ts", "2.ts", "3.ts"]);
    let diff = format!("{base} rule R (error) {{ compose difference of A, B }}");
    let v = check(&diff, &streams());
    let files: Vec<&str> = v.iter().filter(|x| x.rule_id == "R").map(|x| x.file.as_str()).collect();
    assert_eq!(files, vec!["1.ts"]);
    let both = format!("{base} rule R (error) {{ compose intersection of A, B by file }}");
    let v = check(&both, &streams());
    let files: Vec<&str> = v.iter().filter(|x| x.rule_id == "R").map(|x| x.file.as_str()).collect();
    assert_eq!(files, vec!["3.ts"]);
    // The representative is the first violation with the key.
    assert_eq!(hits(&v, "R"), vec!["a@0"]);
}

#[test]
fn count_compares_the_group_size() {
    let ts = || vec![words("a.ts", "x x x"), words("b.ts", "x")];
    let count = |op: &str| {
        let src = format!("rule X (warning) {{ match x }} rule C (error) {{ count X per file {op} }}");
        check(&src, &ts())
            .iter()
            .filter(|v| v.rule_id == "C")
            .map(|v| v.file.clone())
            .collect::<Vec<String>>()
    };
    assert_eq!(count("> 1"), vec!["a.ts"]);
    assert_eq!(count("< 3"), vec!["b.ts"]);
    assert_eq!(count(">= 3"), vec!["a.ts"]);
    assert_eq!(count("<= 3"), vec!["a.ts", "b.ts"]);
    assert_eq!(count("== 1"), vec!["b.ts"]);
    assert_eq!(count("< 1"), Vec::<String>::new());
}

#[test]
fn violations_come_in_order_of_path_line_column_and_rule() {
    let src = "rule B (error) { match x } rule A (error) { match x }";
    let v = check(src, &[words("b/a.ts", "x"), words("a/z.ts", "y x x"), words("a.ts", "x")]);
    let order: Vec<String> = v
        .iter()
        .map(|x| format!("{} {} {}", x.file, x.span.start_line, x.rule_id))
        .collect();
    assert_eq!(
        order,
        vec![
            "a/z.ts 2 A", "a/z.ts 2 B", "a/z.ts 3 A", "a/z.ts 3 B",
            "a.ts 1 A", "a.ts 1 B",
            "b/a.ts 1 A", "b/a.ts 1 B",
        ]
    );
    let parts: Vec<&str> = vec!["a/z.ts", "a.ts"];
    let mut paths: Vec<camino::Utf8PathBuf> =
        parts.iter().rev().map(camino::Utf8PathBuf::from).collect();
    paths.sort();
    assert_eq!(paths, parts.iter().map(camino::Utf8PathBuf::from).collect::<Vec<_>>());
}

fn context(waivers: &[(&str, &str)], adrs: &[(&str, bool)]) -> MatchContext {
    MatchContext {
        waivers: waivers
            .iter()
            .map(|(r, f)| WaiverRecord { rule: r.to_string(), file: f.to_string() })
            .collect(),
        adrs: adrs
            .iter()
            .map(|(t, a)| AdrRecord { topic: t.to_string(), accepted: *a })
            .collect(),
    }
}

#[test]
fn waivers_suppress_their_rule_in_their_file() {
    let rules = load("rule X (error) { match x } rule C (error) { count X per file > 0 }");
    let ts = || vec![words("a.ts", "x"), words("b.ts", "x")];
    let v = run(&rules, &ts(), &context(&[("X", "a.ts")], &[]));
    assert_eq!(v.len(), 2);
    assert!(v.iter().all(|x| x.file == "b.ts"));
    let v = run(&rules, &ts(), &context(&[("C", "a.ts")], &[]));
    assert_eq!(v.iter().filter(|x| x.rule_id == "C").count(), 1);
    assert_eq!(v.iter().filter(|x| x.rule_id == "X").count(), 2);
    let ctx = context(&[("X", "a.ts")], &[]);
    assert!(ctx.waiver_covers("X", "a.ts"));
    assert!(!ctx.waiver_covers("X", "b.ts"));
    assert!(!ctx.waiver_covers("Y", "a.ts"));
}

#[test]
fn guards_exempt_files() {
    let ts = || vec![words("src/a.ts", "x"), words("scripts/b.ts", "x")];
    let by_path = load(r#"rule X (error) { match x unless path "**/scripts/**" }"#);
    let v = run(&by_path, &ts(), &MatchContext::default());
    assert_eq!(v.iter().map(|x| x.file.as_str()).collect::<Vec<_>>(), vec!["src/a.ts"]);
    let by_adr = load(r#"rule X (error) { match x unless adr "tools" }"#);
    assert_eq!(run(&by_adr, &ts(), &context(&[], &[("tools", true)])).len(), 0);
    assert_eq!(run(&by_adr, &ts(), &context(&[], &[("tools", false)])).len(), 2);
    assert_eq!(run(&by_adr, &ts(), &context(&[], &[("other", true)])).len(), 2);
    let by_waiver = load("rule X (error) { match x unless waiver OTHER }");
    let v = run(&by_waiver, &ts(), &context(&[("OTHER", "src/a.ts")], &[]));
    assert_eq!(v.iter().map(|x| x.file.as_str()).collect::<Vec<_>>(), vec!["scripts/b.ts"]);
    // A guard without a rule id speaks of the rule itself.
    let own = load("rule X (error) { match x unless waiver }");
    assert_eq!(own[0].unless.as_ref().unwrap().waiver_rule.as_deref(), Some("X"));
}

#[test]
fn scope_is_language_and_path() {
    let ts = || vec![words("src/a.ts", "x"), words("src/gen/b.ts", "x"), words("lib/c.ts", "x")];
    let src = r#"rule X (error) { lang typescript in "src/**" not in "**/gen/**" match x }"#;
    let v = check(src, &ts());
    assert_eq!(v.iter().map(|x| x.file.as_str()).collect::<Vec<_>>(), vec!["src/a.ts"]);
    let other = "rule X (error) { lang go, Python match x }";
    assert_eq!(check(other, &ts()).len(), 0);
    let rules = load(r#"rule X (error) { in "src/**" not in "src/gen/**" match x }"#);
    assert!(rules[0].path_in_scope("src/a.ts"));
    assert!(!rules[0].path_in_scope("src/gen/a.ts"));
    assert!(!rules[0].path_in_scope("lib/a.ts"));
    assert!(rules[0].applies_to_language(Language::Rust));
    assert!(!rules[0].is_aggregate());
}

#[test]
fn numeric_fields_compare_as_numbers() {
    let mut ts = words("a.ts", "x y z");
    ts.tokens[0].curly = 2;
    ts.tokens[1].curly = 10;
    ts.tokens[2].end_byte = ts.tokens[2].start_byte + 300;
    let v = check("rule C (error) { match Token[curly_depth > 2] }", &[ts]);
    assert_eq!(hits(&v, "C"), vec!["y@1"]);
    let mut ts = words("a.ts", "x y z");
    ts.tokens[2].end_byte = ts.tokens[2].start_byte + 300;
    let v = check("rule C (error) { match Token[text_len >= 299.5, named = \"true\"] }", &[ts]);
    assert_eq!(hits(&v, "C"), vec!["z@2"]);
    // In a sequence the same predicate goes through the string forms.
    let mut ts = words("a.ts", "x y z");
    ts.tokens[1].round = 7;
    let v = check("rule C (error) { sequence { Token[round_depth <= 7, round_depth > 6.5] any * } }", &[ts]);
    assert_eq!(hits(&v, "C"), vec!["y@1"]);
}

#[test]
fn summary_counts_by_severity() {
    let src = "rule E (error) { match x } rule W (warning) { match x } rule V (warning) { match y }";
    let v = check(src, &[words("a.ts", "x y")]);
    assert_eq!(summarize(&v), (1, 2));
    assert_eq!(v.iter().filter(|x| x.severity == Severity::Warning).count(), 2);
    assert_eq!(summarize(&[]), (0, 0));
}

#[test]
fn guards_and_scopes_decide_from_what_they_are_told() {
    assert!(scope_verdict(None, None) && scope_verdict(Some(true), None));
    assert!(scope_verdict(Some(true), Some(false)) && scope_verdict(None, Some(false)));
    assert!(!scope_verdict(Some(true), Some(true)) && !scope_verdict(Some(false), None));
    assert!(!guard_verdict(None, None, None) && !guard_verdict(Some(false), None, Some(false)));
    assert!(guard_verdict(Some(true), None, None) && guard_verdict(None, Some(true), Some(false)));
    assert!(guard_verdict(Some(false), Some(false), Some(true)));
    assert!(regex_verdict(&[false, true], false) && !regex_verdict(&[false, true], true));
    assert!(regex_verdict(&[], true) && !regex_verdict(&[], false));
}

#[test]
fn path_components_compare_by_kind_then_text() {
    let name = |s: &str| Part::Name(s.to_string());
    assert_eq!(compare_path(&vec![name("a"), name("z")], &vec![name("a.ts")]), Order::Less);
    assert_eq!(compare_path(&vec![Part::Root], &vec![Part::Here]), Order::Less);
    assert_eq!(compare_path(&vec![Part::Parent], &vec![Part::Here]), Order::Greater);
    assert_eq!(compare_path(&vec![Part::Drive(b'C')], &vec![Part::Root]), Order::Less);
    assert_eq!(compare_path(&vec![name("a")], &vec![name("a")]), Order::Equal);
    let share = |s: &str, t: &str| vec![Part::Share(s.to_string(), t.to_string())];
    assert_eq!(compare_path(&share("a", "z"), &share("b", "a")), Order::Less);
    assert_eq!(compare_path(&share("a", "z"), &share("a", "b")), Order::Greater);
    assert_eq!(compare_path(&share("a", "b"), &share("a", "b")), Order::Equal);
    assert_eq!(compare_path(&share("z", "z"), &vec![Part::Drive(b'C')]), Order::Less);
    assert_eq!(compare_path(&vec![Part::Drive(b'D')], &vec![Part::Drive(b'C')]), Order::Greater);
    assert_eq!(compare_path(&vec![Part::VerbatimDrive(b'D')], &vec![Part::Drive(b'C')]), Order::Less);
    assert_eq!(
        compare_path(&vec![Part::Verbatim("z".into())], &vec![Part::Device("a".into())]),
        Order::Less
    );
    let a = Part::VerbatimShare("a".into(), "b".into());
    let b = Part::VerbatimShare("a".into(), "c".into());
    assert_eq!(compare_path(&vec![a], &vec![b]), Order::Less);
    assert_eq!(compare_path(&vec![name("a"), name("b")], &vec![name("a")]), Order::Greater);
}

#[test]
fn explicit_delimiters_balance() {
    // Nothing named x stands in the argument list of foo.
    let src = r#"rule B (error) { sequence { foo "(" not x * ")" any * } }"#;
    assert_eq!(check(src, &[words("a.ts", "foo ( a b ) x")]).len(), 1);
    // The inner `)` does not end the list: x is still inside.
    assert_eq!(check(src, &[words("a.ts", "foo ( bar ( ) x ) y")]).len(), 0);
    assert_eq!(check(src, &[words("a.ts", "foo ( bar ( ) y ) x")]).len(), 1);
    // Pairs nest, and each closes its own.
    let nested = r#"rule B (error) { sequence { "(" "[" any * "]" any * ")" } }"#;
    assert_eq!(check(nested, &[words("a.ts", "( [ a [ b ] ] c )")]).len(), 1);
    assert_eq!(check(nested, &[words("a.ts", "( [ a ] ) ( )")]).len(), 0);
    // An explicit delimiter without its counterpart is a literal like any other.
    let lone = r#"rule B (error) { sequence { "(" any * } }"#;
    assert_eq!(check(lone, &[words("a.ts", "( a ) b")]).len(), 1);
    // The raw form counts too.
    let raw = r#"rule B (error) { sequence in scope { Token[node_kind = "("] any * Token[node_kind = ")"] } }"#;
    assert_eq!(check(raw, &[words("a.ts", "{ ( a ( b ) ) }")]).len(), 1);
    assert_eq!(check(raw, &[words("a.ts", "{ ( a ) ( b ) }")]).len(), 1);
}

#[test]
fn pairs_close_where_they_are_linked_whatever_stands_between() {
    // Steps, a capture and another pair stand between the outer parentheses.
    let src = r#"rule P (error) {
        sequence { "(" x:@ident ? "[" any * "]" any * :x ")" any * }
    }"#;
    assert_eq!(check(src, &[words("a.ts", "( a [ b ] c a ) d")]).len(), 1);
    assert_eq!(check(src, &[words("a.ts", "( a [ b ] ( a ) a ) d")]).len(), 1);
    // The only `)` behind an a is one that an inner parenthesis is linked with.
    assert_eq!(check(src, &[words("a.ts", "( a [ b ] ( a ) c )")]).len(), 0);
    assert_eq!(check(src, &[words("a.ts", "( a [ b ( a ) ] )")]).len(), 0);
}
