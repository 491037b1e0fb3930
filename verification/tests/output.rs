//! Reports, explanations, records and the decisions around a check.

use codepolicy::dsl;
use codepolicy::explain::{explain, find_rule, Piece};
use codepolicy::matching::{Matched, Violation};
use codepolicy::paths::{extension, file_name, relative};
use codepolicy::project::{
    adr_dir, adr_from, exit_code, is_yaml, read_adr, read_waiver, rules_file, waiver_from,
    waivers_dir,
};
use codepolicy::report::{render, render_tokens, write_json, Format};
use codepolicy::schema::Severity;
use codepolicy::token::{Interner, Language, Span, Token, TokenStream, NO_JMP};
use codepolicy::value::{value_strings, yaml_scalar, yaml_strings, Datum};

fn sample() -> Vec<Violation> {
    vec![Violation {
        rule_id: "NO_DEBUGGER".into(),
        severity: Severity::Error,
        description: Some("Remove debugger statements.".into()),
        message: Some("Delete it.".into()),
        file: "apps/admin/src/Member.tsx".into(),
        span: Span {
            start_byte: 0,
            end_byte: 0,
            start_line: 1,
            start_col: 1,
            end_line: 1,
            end_col: 9,
        },
        matched: Matched {
            node_kind: "debugger".into(),
            class: "symbol".into(),
            text: "debugger".into(),
            named: false,
            function: "f".into(),
        },
    }]
}

fn bare() -> Violation {
    let mut v = sample().remove(0);
    v.severity = Severity::Warning;
    v.description = None;
    v.message = None;
    v.matched.function = String::new();
    v.matched.text = "a\"b\n".into();
    v
}

#[test]
fn human_mentions_rule_and_location() {
    let s = render(&sample(), Format::Human);
    assert!(s.contains("ERROR NO_DEBUGGER"));
    assert!(s.contains("apps/admin/src/Member.tsx:1:1"));
    assert!(s.contains("node_kind=\"debugger\""));
}

#[test]
fn json_is_valid_and_has_summary() {
    let s = render(&sample(), Format::Json);
    let parsed: serde_json::Value = serde_json::from_str(&s).unwrap();
    assert_eq!(parsed["summary"]["errors"], 1);
    assert_eq!(parsed["violations"][0]["rule_id"], "NO_DEBUGGER");
}

#[test]
fn agent_is_terse() {
    let s = render(&sample(), Format::Agent);
    assert!(s.contains("fix:"));
    assert!(s.contains("ERROR NO_DEBUGGER"));
}

#[test]
fn human_report_is_laid_out_in_blocks() {
    let mut v = sample();
    v.push(bare());
    assert_eq!(
        render(&v, Format::Human),
        "ERROR NO_DEBUGGER\n\
         apps/admin/src/Member.tsx:1:1\n\
         \nRemove debugger statements.\n\
         \nMatched:\n  node_kind=\"debugger\" class=\"symbol\" text=\"debugger\" function=\"f\"\n\
         \nRemediation:\n  Delete it.\n\
         \n\
         WARNING NO_DEBUGGER\n\
         apps/admin/src/Member.tsx:1:1\n\
         \nMatched:\n  node_kind=\"debugger\" class=\"symbol\" text=\"a\\\"b\\n\"\n\
         \n\
         2 violation(s): 1 error(s), 1 warning(s)\n"
    );
    assert_eq!(render(&[], Format::Human), "0 violation(s): 0 error(s), 0 warning(s)\n");
}

#[test]
fn agent_report_is_laid_out_in_lines() {
    assert_eq!(
        render(&sample(), Format::Agent),
        "ERROR NO_DEBUGGER at apps/admin/src/Member.tsx:1:1\n  \
         matched: node_kind=\"debugger\" class=\"symbol\" text=\"debugger\" function=\"f\"\n  \
         why: Remove debugger statements.\n  \
         fix: Delete it.\n\
         \n\
         codepolicy: 1 error(s), 0 warning(s). Fix the errors above before committing.\n"
    );
    assert_eq!(render(&[], Format::Agent), "codepolicy: no violations.\n");
}

#[test]
fn json_report_has_its_members_in_order() {
    let s = render(&sample(), Format::Json);
    let expected = r#"{
  "violations": [
    {
      "rule_id": "NO_DEBUGGER",
      "severity": "error",
      "description": "Remove debugger statements.",
      "message": "Delete it.",
      "file": "apps/admin/src/Member.tsx",
      "span": {
        "start_byte": 0,
        "end_byte": 0,
        "start_line": 1,
        "start_col": 1,
        "end_line": 1,
        "end_col": 9
      },
      "matched": {
        "node_kind": "debugger",
        "class": "symbol",
        "text": "debugger",
        "named": false,
        "function": "f"
      }
    }
  ],
  "summary": {
    "errors": 1,
    "warnings": 0,
    "total": 1
  }
}"#;
    assert_eq!(s, expected);
    let s = render(&[bare()], Format::Json);
    assert!(!s.contains("description") && !s.contains("message") && !s.contains("function"));
    assert!(s.contains(r#""text": "a\"b\n""#) && s.contains(r#""severity": "warning""#));
    assert!(render(&[], Format::Json).starts_with("{\n  \"violations\": [],\n"));
}

#[test]
fn tokens_are_written_as_objects() {
    let mut interner = Interner::new();
    let token = Token {
        kind: interner.intern("{"),
        text: interner.intern("{"),
        func: interner.intern("f"),
        class: interner.intern("symbol"),
        named: false,
        start_byte: 3,
        end_byte: 4,
        start_line: 1,
        start_col: 4,
        end_line: 1,
        end_col: 5,
        curly: 1,
        round: 2,
        bracket: 3,
        jmp: 9,
    };
    let mut other = token;
    other.jmp = NO_JMP;
    let ts = TokenStream {
        file: "a.ts".into(),
        language: Language::Typescript,
        interner,
        tokens: vec![token, other],
    };
    let parsed: serde_json::Value = serde_json::from_str(&render_tokens(&ts)).unwrap();
    assert_eq!(parsed[0]["node_kind"], "{");
    assert_eq!(parsed[0]["class"], "symbol");
    assert_eq!(parsed[0]["function"], "f");
    assert_eq!(parsed[0]["bracket_depth"], 3);
    assert_eq!(parsed[0]["span"]["start_col"], 4);
    assert_eq!(parsed[0]["jmp"], 9);
    assert!(parsed[1]["jmp"].is_null());
    let keys: Vec<&String> = parsed[0].as_object().unwrap().keys().collect();
    let mut sorted = keys.clone();
    sorted.sort();
    assert_eq!(keys, sorted);
    assert_eq!(keys.len(), 10);
    assert_eq!(write_json(&Datum::Sequence(vec![Datum::Null, Datum::Bool(true)])), "[\n  null,\n  true\n]");
}

fn explained(src: &str) -> String {
    let (rules, _) = dsl::load(src).unwrap();
    explain(&rules[0])
        .into_iter()
        .map(|p| match p {
            Piece::Text(s) => s,
            Piece::Num(n) => format!("{:?}", f64::from_bits(n.place.unwrap() as u64)),
        })
        .collect()
}

#[test]
fn a_pattern_is_explained() {
    let s = explained(
        r#"rule R (warning) {
             desc "why" lang typescript, go
             match Token[text = "a", class in ["x", "y"], text ~ /q/, curly_depth > 2.50]
             where scope not contains @ident
             unless path "x" unless adr "t\"q"
             message "fix it"
             unless waiver
           }"#,
    );
    assert_eq!(
        s,
        "R [WARNING]\n\nwhy\nlanguages: [Typescript, Go]\n\
         \nmatches a token pattern:\n  \
         - AnyOf { attr: \"class\", values: [\"x\", \"y\"] }\n  \
         - Cmp { attr: \"curly_depth\", op: Gt, n: 2.5 }\n  \
         - Eq { attr: \"text\", value: \"a\" }\n  \
         - Regex { attr: \"text\", re: Regex(\"q\") }\n\
         where_scope (enclosing block):\n  \
         - not_contains: [Eq { attr: \"class\", value: \"ident\" }]\n\
         unless:\n  - path.matches: <globs>\n  - waiver.exists: rule=R\n  - adr.exists: topic=\"t\\\"q\"\n\
         \nremediation: fix it\n"
    );
    assert!(explained("rule R { match any }").contains("  (any token)\n"));
    let two = explained("rule R { match any where scope contains a where scope contains b }");
    assert!(two.ends_with(
        "  - contains: [Eq { attr: \"text\", value: \"a\" }]\n  - contains: [Eq { attr: \"text\", value: \"b\" }]\n"
    ));
}

#[test]
fn sequences_and_derived_rules_are_explained() {
    let s = explained("rule R { sequence in scope { x:a not ( b | c ) * } }");
    assert_eq!(
        s,
        "R [ERROR]\n\nmatches a sequence of 2 step(s) (anchored within a scope):\n  \
         1. CompiledStep { matcher: Pat([Eq { attr: \"text\", value: \"a\" }]), quant: One, negate: false, bind: [(\"x\", \"text\")] }\n  \
         2. CompiledStep { matcher: Alt([Pat([Eq { attr: \"text\", value: \"b\" }]), Pat([Eq { attr: \"text\", value: \"c\" }])]), quant: ZeroOrMore, negate: true, bind: [] }\n"
    );
    assert_eq!(
        explained("rule R { compose difference of A, B by file, function }"),
        "R [ERROR]\n\ncomposes (Difference) of [\"A\", \"B\"] keyed by [File, Function]\n"
    );
    assert_eq!(
        explained("rule R { count A per function >= 12 }"),
        "R [ERROR]\n\ncounts `A` per Function; fires when count Ge 12\n"
    );
}

#[test]
fn the_first_rule_with_an_id_is_found() {
    let (rules, _) = dsl::load("rule A { match x } rule B { match y } rule A { match z }").unwrap();
    let found = find_rule(&rules, "A").unwrap();
    assert!(std::ptr::eq(found, &rules[0]));
    assert!(find_rule(&rules, "C").is_none());
}

#[test]
fn waivers_need_a_rule_and_a_file() {
    let w = read_waiver("rule: NO_DEBUGGER\nfile: apps/x.ts\nreason: demo\n").unwrap().unwrap();
    assert_eq!((w.rule.as_str(), w.file.as_str()), ("NO_DEBUGGER", "apps/x.ts"));
    assert!(read_waiver("rule: X").unwrap().is_none());
    assert!(read_waiver("rule: X\nfile: 3").unwrap().is_none());
    assert!(read_waiver("- rule").unwrap().is_none());
    assert!(read_waiver("a: [").is_none());
    // A tag on the record or on a value does not matter; a tagged key is not a string.
    assert!(read_waiver("!tag\nrule: X\nfile: !t y").unwrap().is_some());
    assert!(read_waiver("!k rule: X\nfile: y").unwrap().is_none());
    assert!(waiver_from(&Datum::Null).is_none());
}

#[test]
fn decisions_are_accepted_in_any_case() {
    let accepted = |text: &str| read_adr(text).unwrap().map(|a| (a.topic, a.accepted));
    assert_eq!(accepted("topic: t\nstatus: Accepted"), Some(("t".into(), true)));
    assert_eq!(accepted("topic: t\nstatus: ACCEPTED"), Some(("t".into(), true)));
    assert_eq!(accepted("topic: t\nstatus: proposed"), Some(("t".into(), false)));
    assert_eq!(accepted("topic: t"), Some(("t".into(), false)));
    assert_eq!(accepted("status: accepted"), None);
    assert!(read_adr("{").is_none());
    assert!(adr_from(&Datum::Mapping(vec![])).is_none());
}

#[test]
fn files_and_directories_have_defaults() {
    assert_eq!(rules_file(true, true), "codepolicy.yaml");
    assert_eq!(rules_file(false, true), "codepolicy.rules");
    assert_eq!(rules_file(false, false), "codepolicy.yaml");
    assert_eq!(waivers_dir(&None), ".codepolicy/waivers");
    assert_eq!(waivers_dir(&Some("w".into())), "w");
    assert_eq!(adr_dir(&None), "docs/adr");
    assert_eq!(adr_dir(&Some("d".into())), "d");
    assert!(is_yaml("a/b.yaml") && is_yaml("b.yml") && !is_yaml("b.rules") && !is_yaml("yaml"));
}

#[test]
fn errors_fail_the_run() {
    assert_eq!(exit_code(&sample()), 1);
    assert_eq!(exit_code(&[bare()]), 0);
    assert_eq!(exit_code(&[]), 0);
}

#[test]
fn paths_have_names_extensions_and_relative_forms() {
    for path in ["a/b.ts", "a.tar.gz", ".hidden", "..x", "a/..", "/", "", "a/b.", "./c.js", "dir/"] {
        let p = camino::Utf8Path::new(path);
        assert_eq!(file_name(path).as_deref(), p.file_name(), "{path}");
        assert_eq!(extension(path).as_deref(), p.extension(), "{path}");
    }
    assert_eq!(relative("/repo/src/a.ts", "/repo"), "src/a.ts");
    assert_eq!(relative("/other/a.ts", "/repo"), "/other/a.ts");
    assert_eq!(relative("./src/a.ts", "."), "src/a.ts");
}

#[test]
fn value_strings_flattens_scalars_and_arrays() {
    let t = |s: &str| Datum::Text(s.to_string());
    assert_eq!(value_strings(&t("a")), vec!["a"]);
    assert_eq!(value_strings(&Datum::Sequence(vec![t("a"), t("b")])), vec!["a", "b"]);
    assert!(value_strings(&Datum::Null).is_empty());
    let nested = Datum::Sequence(vec![Datum::Bool(true), Datum::Sequence(vec![Datum::Number("4".into())])]);
    assert_eq!(yaml_strings(&nested), vec!["true", "4"]);
    assert!(value_strings(&Datum::Mapping(vec![(t("k"), t("v"))])).is_empty());
    let tagged = Datum::Tagged("!t".into(), Box::new(t("a")));
    assert!(value_strings(&tagged).is_empty() && yaml_scalar(&tagged).is_none());
    assert_eq!(tagged.as_str(), Some("a"));
    assert_eq!(yaml_scalar(&Datum::Bool(false)).as_deref(), Some("false"));
    assert!(yaml_scalar(&nested).is_none());
}
