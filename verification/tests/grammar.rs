//! The textual rule grammar.

use codepolicy::dsl::{load, parse};
use codepolicy::lexer::lex;
use codepolicy::rules::{AttrPred, CmpOp, Quant, SetOp, StepMatcher};
use codepolicy::schema::Severity;
use codepolicy::token::Language;

fn rejected(src: &str) -> String {
    match load(src) {
        Ok(_) => panic!("accepted: {src}"),
        Err(e) => e.0,
    }
}

#[test]
fn parses_single_token_rule() {
    let src = r#"
        rule NO_DEBUGGER (error) {
          lang typescript
          in "apps/*/src/**/*.{ts,tsx}"
          not in "**/generated/**"
          match Token[node_kind = "debugger"]
          message "Remove debugger statements."
        }
    "#;
    let (rules, _) = load(src).unwrap();
    assert_eq!(rules.len(), 1);
    let r = &rules[0];
    assert_eq!(r.id, "NO_DEBUGGER");
    assert_eq!(r.preds.len(), 1);
    assert!(matches!(r.preds[0], AttrPred::Eq { .. }));
    assert!(r.message.as_deref().unwrap().contains("debugger"));
    assert_eq!(r.languages.as_deref(), Some(&[Language::Typescript][..]));
}

#[test]
fn parses_sequence_with_multibind_and_alt() {
    let src = r#"
        rule SEQ (warning) {
          lang typescript, javascript
          sequence in scope {
            Token[class = "ident"] as a = text, b = node_kind
            ( Token[node_kind = "=="] | Token[node_kind = "==="] )
          }
          message "x"
        }
    "#;
    let (rules, _) = load(src).unwrap();
    let seq = rules[0].sequence.as_ref().unwrap();
    assert!(seq.within_scope);
    assert_eq!(seq.steps.len(), 2);
    assert_eq!(seq.steps[0].bind.len(), 2, "first step binds two vars");
    assert!(matches!(seq.steps[1].matcher, StepMatcher::Alt(_)));
}

#[test]
fn parses_compose_and_count() {
    let src = r#"
        rule A (error) { compose intersection of X, Y by file, function }
        rule B (error) { count Z per file > 10 }
    "#;
    let (rules, _) = load(src).unwrap();
    assert!(rules[0].compose.is_some());
    assert!(rules[1].count.is_some());
}

#[test]
fn parses_where_scope() {
    let src = r#"
        rule ACQUIRE (warning) {
          match Token[text = "acquire"]
          where scope not contains Token[text = "release"]
        }
    "#;
    let (rules, _) = load(src).unwrap();
    let ws = rules[0].where_scope.as_ref().unwrap();
    assert_eq!(ws.not_contains.len(), 1);
}

#[test]
fn reports_a_line_number_on_error() {
    let src = "rule X (error) {\n  match\n}";
    let e = load(src).unwrap_err();
    assert!(e.0.contains("line"), "error should carry a line: {}", e.0);
    assert_eq!(
        e.0,
        "line 3: expected a token pattern: `Token[...]`, `@class`, `/regex/`, or `any`, found Some(RBrace)"
    );
}

#[test]
fn at_class_and_amp_desugar_to_class_and_text() {
    let (rules, _) = load(r#"rule L (warning) { match @ident & /^pumba/ }"#).unwrap();
    let r = &rules[0];
    assert!(
        r.preds.iter().any(|p| matches!(p, AttrPred::Eq { attr, value }
            if attr == "class" && value == "ident")),
        "@ident -> class = ident: {:?}",
        r.preds
    );
    assert!(
        r.preds.iter().any(|p| matches!(p, AttrPred::Regex { attr, re }
            if attr == "text" && re.as_str() == "^pumba")),
        "/^pumba/ -> text ~ /^pumba/: {:?}",
        r.preds
    );
}

#[test]
fn bare_regex_is_a_text_regex_token_matcher() {
    let (rules, _) = load(r#"rule L (warning) { match /^pumba/ }"#).unwrap();
    let r = &rules[0];
    assert!(
        matches!(&r.preds[0], AttrPred::Regex { attr, re }
            if attr == "text" && re.as_str() == "^pumba"),
        "bare /re/ -> Token[text ~ /re/]: {:?}",
        r.preds
    );
}

#[test]
fn star_after_a_token_is_repetition() {
    // `*` is token-level Kleene on a step, never a character glob.
    let (rules, _) = load(
        r#"rule L (warning) { sequence { Token[text = "log"] * Token[text = "save"] } }"#,
    )
    .unwrap();
    let seq = rules[0].sequence.as_ref().unwrap();
    assert_eq!(seq.steps.len(), 2);
    assert_eq!(seq.steps[0].quant, Quant::ZeroOrMore, "the `log` lexeme step repeats");
}

#[test]
fn severity_defaults_to_error() {
    let (rules, _) = load("rule A { match x } rule B (warning) { match x }").unwrap();
    assert_eq!(rules[0].severity, Severity::Error);
    assert_eq!(rules[1].severity, Severity::Warning);
    assert_eq!(rules[0].severity.label(), "ERROR");
    assert_eq!(rules[1].severity.label(), "WARNING");
}

#[test]
fn a_bare_word_or_string_is_a_literal_lexeme() {
    let (rules, _) = load(r#"rule A { match debugger } rule B { match "==" }"#).unwrap();
    assert!(matches!(&rules[0].preds[0], AttrPred::Eq { attr, value } if attr == "text" && value == "debugger"));
    assert!(matches!(&rules[1].preds[0], AttrPred::Eq { attr, value } if attr == "text" && value == "=="));
    let (rules, _) = load("rule A { match any }").unwrap();
    assert!(rules[0].preds.is_empty());
    let (rules, _) = load(r#"rule A { match "any" }"#).unwrap();
    assert_eq!(rules[0].preds.len(), 1);
}

#[test]
fn a_caret_negates_a_regex() {
    let (rules, _) = load(r"rule A { match @comment & ^/\(#\d+\)/ }").unwrap();
    assert!(rules[0].preds.iter().any(|p| matches!(p, AttrPred::NotRegex { attr, re }
        if attr == "text" && re.as_str() == r"\(#\d+\)")));
}

#[test]
fn captures_bind_and_refer_to_text() {
    let (rules, _) = load("rule A { sequence { x:@ident any * :x any * } }").unwrap();
    let seq = rules[0].sequence.as_ref().unwrap();
    assert!(seq.has_captures);
    assert_eq!(seq.steps[0].bind, vec![("x".to_string(), "text".to_string())]);
    assert!(matches!(&seq.steps[2].matcher, StepMatcher::Pat { preds, .. }
        if matches!(&preds[0], AttrPred::EqRef { attr, var } if attr == "text" && var == "x")));
    let (rules, _) = load("rule A { sequence { any * } }").unwrap();
    assert!(!rules[0].sequence.as_ref().unwrap().has_captures);
}

#[test]
fn every_predicate_operator_has_its_form() {
    let src = r#"
        rule A { match Token[a = 5, b ~ /x/, c !~ /y/, d in ["p", "q"], e > 1, f < 2, g >= 3, h <= 4, i == $v, j != $w] }
    "#;
    let (rules, _) = load(src).unwrap();
    let p = &rules[0].preds;
    assert_eq!(p.len(), 10);
    assert!(matches!(&p[0], AttrPred::Eq { attr, value } if attr == "a" && value == "5"));
    assert!(matches!(&p[1], AttrPred::Regex { attr, .. } if attr == "b"));
    assert!(matches!(&p[2], AttrPred::NotRegex { attr, .. } if attr == "c"));
    assert!(matches!(&p[3], AttrPred::AnyOf { attr, values } if attr == "d" && values == &["p", "q"]));
    assert!(matches!(&p[4], AttrPred::Cmp { attr, op: CmpOp::Gt, .. } if attr == "e"));
    assert!(matches!(&p[5], AttrPred::Cmp { attr, op: CmpOp::Lt, .. } if attr == "f"));
    assert!(matches!(&p[6], AttrPred::Cmp { attr, op: CmpOp::Ge, .. } if attr == "g"));
    assert!(matches!(&p[7], AttrPred::Cmp { attr, op: CmpOp::Le, .. } if attr == "h"));
    assert!(matches!(&p[8], AttrPred::EqRef { attr, var } if attr == "i" && var == "v"));
    assert!(matches!(&p[9], AttrPred::NeRef { attr, var } if attr == "j" && var == "w"));
}

#[test]
fn a_later_predicate_with_the_same_key_wins() {
    let (rules, _) = load(r#"rule A { match Token[text = "a", text = "b"] }"#).unwrap();
    assert_eq!(rules[0].preds.len(), 1);
    assert!(matches!(&rules[0].preds[0], AttrPred::Eq { value, .. } if value == "b"));
}

#[test]
fn literals_unescape_as_they_say() {
    let (rules, _) = load(r#"rule A { match "a\"b\\c" message "x" }"#).unwrap();
    assert!(matches!(&rules[0].preds[0], AttrPred::Eq { value, .. } if value == "a\"b\\c"));
    let (rules, _) = load(r"rule A { match /a\/b\d/ }").unwrap();
    assert!(matches!(&rules[0].preds[0], AttrPred::Regex { re, .. } if re.as_str() == r"a/b\d"));
}

#[test]
fn directives_and_comments_are_read() {
    let file = parse("# nothing\nwaivers \"w\" # here\nadrs \"d\"\nrule A { match x }").unwrap();
    assert_eq!(file.waivers_dir.as_deref(), Some("w"));
    assert_eq!(file.adr_dir.as_deref(), Some("d"));
    assert_eq!(file.rules.len(), 1);
    // The last directive of a kind wins.
    let file = parse("waivers \"w\" adrs \"a\" waivers \"w2\" rule R { match any }").unwrap();
    assert_eq!(file.waivers_dir.as_deref(), Some("w2"));
    assert_eq!(file.adr_dir.as_deref(), Some("a"));
    assert_eq!(file.rules.len(), 1);
    assert_eq!(file.rules[0].id, "R");
    let empty = parse(" \n ").unwrap();
    assert!(empty.rules.is_empty() && empty.waivers_dir.is_none());
}

#[test]
fn description_and_default_compose_key() {
    let (rules, _) = load("rule A { compose union of X desc \"why\" }").unwrap();
    assert_eq!(rules[0].description.as_deref(), Some("why"));
    let c = rules[0].compose.as_ref().unwrap();
    assert_eq!(c.op, SetOp::Union);
    assert_eq!(c.of, vec!["X"]);
    assert_eq!(c.key, vec![codepolicy::rules::KeyPart::File]);
}

#[test]
fn errors_name_the_line_and_what_was_found() {
    assert_eq!(rejected("rule"), "line 1: expected an identifier, found None");
    assert_eq!(rejected("rule A ("), "line 1: expected an identifier, found None");
    assert_eq!(
        rejected("rule A (fatal) { }"),
        "line 1: unknown severity `fatal`, found Some(RParen)"
    );
    assert_eq!(rejected("rule A (error { }"), "line 1: expected RParen, found Some(LBrace)");
    assert_eq!(rejected("nope"), "line 1: expected `rule`, `waivers`, or `adrs`, found Some(Ident(\"nope\"))");
    assert_eq!(rejected("rule A {\nmatch x"), "line 2: unexpected end of input inside `rule { }`, found None");
    assert_eq!(rejected("rule A {\n\nfoo }"), "line 3: unexpected statement in rule body, found Some(Ident(\"foo\"))");
    assert_eq!(rejected("rule A { lang cobol }"), "line 1: unknown language `cobol`, found Some(RBrace)");
    assert_eq!(rejected("rule A { not x }"), "line 1: expected `in`, found Some(Ident(\"x\"))");
    assert_eq!(rejected("rule A { in x }"), "line 1: expected a \"string\", found Some(RBrace)");
    assert_eq!(
        rejected("rule A { unless x }"),
        "line 1: expected `path`, `waiver`, or `adr` after `unless`, found Some(Ident(\"x\"))"
    );
    assert_eq!(
        rejected("rule A { match @ident & } "),
        "line 1: expected a `@class` or `/regex/` token matcher, found None"
    );
    assert_eq!(rejected("rule A { match Token[a ["), "line 1: unexpected operator LBrack, found None");
    assert_eq!(rejected("rule A { match Token[a"), "line 1: expected an operator, found None");
    assert_eq!(rejected("rule A { match Token[a = ]"), "line 1: expected a \"string\" or number, found None");
    assert_eq!(rejected("rule A { match Token[a > \"x\"] }"), "line 1: expected a number, found Some(RBrack)");
    assert_eq!(rejected("rule A { match Token[a ~ x] }"), "line 1: expected a /regex/, found Some(RBrack)");
    assert_eq!(
        rejected("rule A { match x where scope x }"),
        "line 1: expected `contains`, `not contains`, or `followed by`, found Some(Ident(\"x\"))"
    );
    assert_eq!(
        rejected("rule A { sequence { x"),
        "line 1: unexpected end of input inside `sequence { }`, found None"
    );
    assert_eq!(
        rejected("rule A { count X per file = 1 }"),
        "line 1: expected a comparison (>, <, >=, <=, ==), found Some(Num(\"1\"))"
    );
    assert_eq!(rejected("rule A { count X per file > x }"), "line 1: expected an integer threshold, found Some(RBrace)");
    assert_eq!(rejected("rule A { count X per file > 1.5 }"), "line 1: count threshold must be an integer");
    assert_eq!(
        rejected("rule A { count X per file > 18446744073709551616 }"),
        "line 1: count threshold must be an integer"
    );
}

#[test]
fn lexing_errors_name_the_line() {
    assert_eq!(rejected("\n%"), "line 2: unexpected character `%`");
    assert_eq!(rejected("@"), "line 1: expected a class name after `@`");
    assert_eq!(rejected(": x"), "line 1: expected a name after `:`");
    assert_eq!(rejected("\"abc"), "line 1: unterminated string");
    assert_eq!(rejected("/abc"), "line 1: unterminated /regex/");
    assert_eq!(rejected("!"), "line 1: unexpected character `!`");
}

#[test]
fn the_largest_threshold_is_read() {
    let (rules, _) = load("rule A { count X per function <= 18446744073709551615 }").unwrap();
    assert_eq!(rules[0].count.as_ref().unwrap().n, u64::MAX);
}

#[test]
fn compile_errors_name_the_rule() {
    assert_eq!(
        rejected("rule A { match x sequence { y } }"),
        "rule `A`: rule must have exactly one of `match`, `match_sequence`, `compose`, `count`"
    );
    assert_eq!(rejected("rule A { }"), rejected("rule A { match x compose union of B }"));
    assert_eq!(rejected("rule A { compose xor of B }"), "rule `A`: unknown compose op `xor`");
    assert_eq!(rejected("rule A { compose union of B by line }"), "rule `A`: unknown compose key `line`");
    assert_eq!(rejected("rule A { count B per line > 1 }"), "rule `A`: unknown count scope `line`");
    assert!(rejected("rule A { match /(/ }").starts_with("rule `A`: invalid regex for attr `text.regex`: regex parse error"));
    assert!(rejected("rule A { in \"[\" match x }").starts_with("rule `A`: invalid path glob `[`: "));
    assert!(rejected("rule A { unless path \"{\" match x }").starts_with("rule `A`: invalid path glob `{`: "));
}

#[test]
fn a_rule_file_with_every_statement_loads() {
    let src = r#"
# a comment runs to end of line, anywhere
waivers ".codepolicy/waivers"

rule no_debugger (error) {     # severity is (error) or (warning); default is error
  lang typescript, javascript  # optional; omit to apply to all languages
  in  "src/**"                 # optional globs (a file must match one)
  not in "**/*.test.ts"        # optional exclude globs (excludes win)
  match debugger
  unless path "**/scripts/**"   # by glob
  unless adr "debugging-tools"  # an accepted decision record
  message "Remove debugger statements."
  unless waiver                 # a file-scoped waiver under this rule's id
}

rule equality { match "==" }
rule private_name { match @ident & /^_/ }
rule hook { match /^use[A-Z]/ }
rule fixme { match @comment & /FIXME/ }
rule no_issue { match @comment & ^/\(#\d+\)/ }

rule save_after_validate {
  sequence in scope {
    validate
    any *                         # quantifiers: ? (0-1), * (0+), + (1+)
    ( save | commit )             # alternation
  }
}

rule lock_without_unlock (error) {
  sequence in scope {
    lock
    not unlock *
  }
  message "lock() with no unlock() in the same block."
}

rule same_again {
  sequence {
    x:@ident       # bind the identifier's text to x
    any *
    :x             # the same identifier again
    any *
  }
}

rule debugger_in_returning_block (warning) {
  match debugger
  where scope contains return
  message "A debugger in a block that returns."
}

rule uses_fetch (warning) { match fetch }
rule has_debugger (warning) { match debugger }

rule fetch_with_debugger (error) {
  compose intersection of uses_fetch, has_debugger by file, function
  message "A function that calls fetch still has a debugger."
}

rule too_many_debuggers (error) {
  count has_debugger per function > 1
  message "More than one debugger in a function."
}
"#;
    let (rules, file) = load(src).unwrap();
    assert_eq!(rules.len(), 14);
    assert_eq!(file.waivers_dir.as_deref(), Some(".codepolicy/waivers"));
    assert!(rules[0].includes.is_some() && rules[0].excludes.is_some());
    assert!(rules.iter().all(|r| r.where_scope.is_some() == (r.id == "debugger_in_returning_block")));
}

#[test]
fn lexing_goes_line_by_line() {
    let toks = |s: &str| -> Vec<(String, usize)> {
        lex(s).unwrap().iter().map(|(t, row)| (format!("{t:?}"), *row)).collect()
    };
    // A newline inside a literal does not count as a row; a comment ends with its line.
    let a = "rule A {\n  match \"x\ny\" # to the end";
    let b = "= /a\\/b/ :x\ny: 1.5";
    assert_eq!(toks(a).len(), 5);
    assert_eq!(toks(a)[4], ("Str(\"x\\ny\")".to_string(), 1));
    let mut both = toks(a);
    both.extend(toks(b).into_iter().map(|(t, row)| (t, row + 2)));
    assert_eq!(toks(&format!("{a}\n{b}")), both);
    // What a text ends in does not run on: not a name, not a number, not an operator.
    for (x, y) in [("foo", "bar"), ("1", "2"), ("=", "="), ("!=", "~"), ("@a", "b"), ("x", ":y")] {
        let mut both = toks(x);
        both.extend(toks(y).into_iter().map(|(t, row)| (t, row + 1)));
        assert_eq!(toks(&format!("{x}\n{y}")), both);
    }
}

#[test]
fn patterns_keep_their_text() {
    let (rules, _) = load(r#"rule A (error) { match Token[text ~ /^a.b$/] }"#).unwrap();
    match &rules[0].preds[0] {
        AttrPred::Regex { re, .. } => assert_eq!(re.as_str(), "^a.b$"),
        other => panic!("{other:?}"),
    }
}
