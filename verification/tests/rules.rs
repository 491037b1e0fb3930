//! Compilation of raw rules and evaluation of predicates.

use codepolicy::compile::{compile_pred, compile_rule, compile_step, load, RuleError};
use codepolicy::event::{Event, EventKind};
use codepolicy::number::parse_number;
use codepolicy::order::TextMap;
use codepolicy::rules::{AttrPred, CmpOp, CompiledRule, CountOp, Quant, StepMatcher};
use codepolicy::schema::{
    default_count_scope, Attrs, Bindings, RawAnchor, RawCompose, RawCount, RawMatch, RawRule,
    RawSequence, RawStep, RawWhereScope, RuleFile, Severity,
};
use codepolicy::token::{Interner, Language, Span, Token, TokenRef, NO_JMP};
use codepolicy::value::Datum;

fn datum(v: serde_yaml_ng::Value) -> Datum {
    match v {
        serde_yaml_ng::Value::Bool(b) => Datum::Bool(b),
        serde_yaml_ng::Value::Number(n) => Datum::Number(n.to_string()),
        serde_yaml_ng::Value::String(s) => Datum::Text(s),
        serde_yaml_ng::Value::Sequence(a) => Datum::Sequence(a.into_iter().map(datum).collect()),
        serde_yaml_ng::Value::Mapping(m) => {
            Datum::Mapping(m.into_iter().map(|(k, v)| (datum(k), datum(v))).collect())
        }
        _ => Datum::Null,
    }
}

fn text(v: Option<&serde_yaml_ng::Value>) -> Option<String> {
    v.and_then(|v| v.as_str()).map(|s| s.to_string())
}

fn attrs(v: Option<&serde_yaml_ng::Value>, skip: &str) -> Attrs {
    let mut out = Attrs::new();
    if let Some(serde_yaml_ng::Value::Mapping(m)) = v {
        for (k, v) in m {
            let k = k.as_str().unwrap();
            if k != skip {
                out.insert(k.to_string(), datum(v.clone()));
            }
        }
    }
    out
}

fn pattern(v: &serde_yaml_ng::Value) -> RawMatch {
    match text(v.get("event")) {
        Some(k) => RawMatch { event: EventKind::from_name(&k), attrs: attrs(v.get("attrs"), "") },
        None => RawMatch { event: None, attrs: attrs(Some(v), "") },
    }
}

fn step(v: &serde_yaml_ng::Value) -> RawStep {
    let bind = v.get("bind").map(|b| {
        let mut m = Bindings::new();
        for (k, f) in b.as_mapping().unwrap() {
            m.insert(k.as_str().unwrap().to_string(), f.as_str().unwrap().to_string());
        }
        m
    });
    RawStep {
        event: text(v.get("event")),
        attrs: attrs(v.get("attrs"), ""),
        quant: text(v.get("quant")),
        negate: v.get("negate").and_then(|n| n.as_bool()),
        bind,
        alt: None,
    }
}

/// Reads the YAML form of rules that the cases below are written in.
fn read(yaml: &str) -> RuleFile {
    let v: serde_yaml_ng::Value = serde_yaml_ng::from_str(yaml).unwrap();
    let rules = v["rules"].as_sequence().unwrap().iter().map(|r| {
        let mut raw = blank(r["id"].as_str().unwrap());
        raw.severity = match r["severity"].as_str().unwrap() {
            "error" => Severity::Error,
            _ => Severity::Warning,
        };
        raw.match_ = r.get("match").map(pattern);
        raw.match_sequence = r.get("match_sequence").map(|s| RawSequence {
            anchor: s.get("anchor").map(|a| RawAnchor { within: text(a.get("within")) }),
            steps: s["steps"].as_sequence().unwrap().iter().map(step).collect(),
        });
        raw
    });
    RuleFile { rules: rules.collect(), waivers_dir: None, adr_dir: None }
}

fn blank(id: &str) -> RawRule {
    RawRule {
        id: id.to_string(),
        severity: Severity::Error,
        description: None,
        message: None,
        applies_to: None,
        match_: None,
        match_sequence: None,
        where_scope: None,
        compose: None,
        count: None,
        unless: None,
    }
}

fn compiled(yaml: &str) -> Vec<CompiledRule> {
    match load(Ok(read(yaml))) {
        Ok((rules, _)) => rules,
        Err(e) => panic!("{}", e.message()),
    }
}

#[test]
fn compiles_attr_operators() {
    let yaml = r##"
rules:
  - id: T
    severity: error
    match:
      node_kind: "identifier"
      text.regex: ".*Query$"
      curly_depth.gt: 2
"##;
    let rules = compiled(yaml);
    let preds = &rules[0].preds;
    assert!(rules[0].sequence.is_none());
    assert_eq!(preds.len(), 3);
    let empty = Bindings::new();
    let cmp = preds.iter().find(|p| matches!(p, AttrPred::Cmp { .. })).unwrap();
    assert!(cmp.eval(&["3".into()], &empty));
    assert!(!cmp.eval(&["1".into()], &empty));
    let re = preds.iter().find(|p| matches!(p, AttrPred::Regex { .. })).unwrap();
    assert!(re.eval(&["UserQuery".into()], &empty));
    assert!(!re.eval(&["UserList".into()], &empty));
}

#[test]
fn lib_compiles_attr_operators() {
    let yaml = r##"
rules:
  - id: T
    severity: error
    match:
      event: Import
      attrs:
        source: "@apollo/client"
        symbols.any: ["useQuery", "gql"]
        name.regex: ".*Query$"
        text.not.regex: "#\\d+"
        range_lines.gt: 200
"##;
    let rules = compiled(yaml);
    assert!(rules[0].sequence.is_none());
    let preds = &rules[0].preds;
    assert_eq!(preds.len(), 5);
    let empty = Bindings::new();
    let anyof = preds.iter().find(|p| matches!(p, AttrPred::AnyOf { .. })).unwrap();
    assert!(anyof.eval(&["gql".into()], &empty));
    assert!(!anyof.eval(&["useMemo".into()], &empty));
    let cmp = preds.iter().find(|p| matches!(p, AttrPred::Cmp { .. })).unwrap();
    assert!(cmp.eval(&["250".into()], &empty));
    assert!(!cmp.eval(&["100".into()], &empty));
    assert_eq!(rules[0].event, Some(EventKind::Import));
    assert!(rules[0].references_kind(EventKind::Import));
    assert!(!rules[0].references_kind(EventKind::Token));
}

#[test]
fn eq_ref_uses_bindings() {
    let p = AttrPred::EqRef { attr: "text".into(), var: "n".into() };
    let mut binds = Bindings::new();
    binds.insert("n".into(), "foo".into());
    assert!(p.eval(&["foo".into()], &binds));
    assert!(!p.eval(&["bar".into()], &binds));
    assert!(!p.eval(&["foo".into()], &Bindings::new())); // unbound -> false
}

#[test]
fn lib_eq_ref_uses_bindings() {
    let p = AttrPred::EqRef { attr: "receiver".into(), var: "obj".into() };
    let mut binds = Bindings::new();
    binds.insert("obj".into(), "mu".into());
    assert!(p.eval(&["mu".into()], &binds));
    assert!(!p.eval(&["other".into()], &binds));
    assert!(!p.eval(&["mu".into()], &Bindings::new())); // unbound -> false
}

#[test]
fn compiles_token_sequence_with_capture() {
    let yaml = r##"
rules:
  - id: REPEATED_IDENT
    severity: warning
    match_sequence:
      anchor: { within: ScopeStart..ScopeEnd }
      steps:
        - attrs: { class: "ident" }
          bind: { n: text }
        - attrs: { class: "ident", text.eq_ref: n }
          negate: true
          quant: zero_or_more
"##;
    let rules = compiled(yaml);
    let seq = rules[0].sequence.as_ref().unwrap();
    assert!(seq.within_scope);
    assert!(seq.has_captures);
    assert_eq!(seq.steps.len(), 2);
    assert!(!seq.steps[0].bind.is_empty());
}

#[test]
fn compiles_sequence_with_capture() {
    let yaml = r##"
rules:
  - id: LOCK_WITHOUT_UNLOCK
    severity: warning
    match_sequence:
      anchor: { within: ScopeStart..ScopeEnd }
      steps:
        - event: Call
          attrs: { name.regex: "lock$" }
          bind: { obj: receiver }
        - event: Call
          attrs: { name.regex: "unlock$", receiver.eq_ref: obj }
          negate: true
          quant: zero_or_more
"##;
    let rules = compiled(yaml);
    let seq = rules[0].sequence.as_ref().unwrap();
    assert!(seq.within_scope);
    assert!(seq.has_captures);
    // two declared steps (matching enumerates start positions, no implicit step)
    assert_eq!(seq.steps.len(), 2);
    assert!(!seq.steps[0].bind.is_empty());
}

#[test]
fn rejects_both_bodies() {
    let yaml = r##"
rules:
  - id: BAD
    severity: error
    match: { node_kind: "x" }
    match_sequence: { steps: [ { attrs: {} } ] }
"##;
    assert!(load(Ok(read(yaml))).is_err());
}

#[test]
fn lib_rejects_both_bodies() {
    let yaml = r##"
rules:
  - id: BAD
    severity: error
    match: { event: Call }
    match_sequence: { steps: [ { event: Call } ] }
"##;
    assert!(load(Ok(read(yaml))).is_err());
}

fn pred(key: &str, v: Datum) -> Result<AttrPred, String> {
    compile_pred(key, &v)
}

fn t(s: &str) -> Datum {
    Datum::Text(s.to_string())
}

fn forms(list: &[&str]) -> Vec<String> {
    list.iter().map(|s| s.to_string()).collect()
}

#[test]
fn keys_name_the_operator() {
    assert!(matches!(pred("a", t("x")), Ok(AttrPred::Eq { attr, value }) if attr == "a" && value == "x"));
    assert!(matches!(pred("a", Datum::Bool(true)), Ok(AttrPred::Eq { value, .. }) if value == "true"));
    assert!(matches!(pred("a", Datum::Number("7".into())), Ok(AttrPred::Eq { value, .. }) if value == "7"));
    let list = Datum::Sequence(vec![t("x"), Datum::Sequence(vec![Datum::Bool(false)]), Datum::Null]);
    assert!(matches!(pred("a.any", list), Ok(AttrPred::AnyOf { values, .. }) if values == ["x", "false"]));
    assert!(matches!(pred("a.any.regex", t("x")), Ok(AttrPred::Regex { .. })));
    assert!(matches!(pred("a.not.regex", t("x")), Ok(AttrPred::NotRegex { .. })));
    assert!(matches!(pred("a.ge", t("1e2")), Ok(AttrPred::Cmp { op: CmpOp::Ge, n, .. }) if Some(n) == parse_number("100")));
    assert!(matches!(pred("a.ne_ref", t("v")), Ok(AttrPred::NeRef { var, .. }) if var == "v"));
}

#[test]
fn keys_and_values_are_checked() {
    let fault = |key: &str, v: Datum| pred(key, v).unwrap_err();
    assert_eq!(fault("a", Datum::Null), "attr `a` expects a scalar value");
    assert_eq!(fault("a.eq_ref", Datum::Sequence(vec![])), "attr `a.eq_ref` expects a scalar value");
    assert_eq!(fault("a.gt", t("x")), "attr `a.gt` expects a number");
    assert_eq!(fault("a.le", Datum::Mapping(vec![])), "attr `a.le` expects a number");
    assert_eq!(fault("a.is.it", t("x")), "unknown attribute operator `.is.it` on `a`");
    assert_eq!(fault("a.regex.any", t("x")), "unknown attribute operator `.regex.any` on `a`");
    assert!(fault("a.regex", t("[")).starts_with("invalid regex for attr `a.regex`: regex parse error"));
    assert_eq!(fault("a.regex", Datum::Null), "attr `a.regex` expects a scalar value");
}

#[test]
fn predicates_hold_of_some_or_no_string_form() {
    let none = Bindings::new();
    let not = pred("a.not.regex", t("^x")).unwrap();
    assert!(not.eval(&forms(&["y", "z"]), &none));
    assert!(!not.eval(&forms(&["y", "xz"]), &none));
    assert!(not.eval(&[], &none));
    let eq = pred("a", t("x")).unwrap();
    assert!(eq.eval(&forms(&["y", "x"]), &none));
    assert!(!eq.eval(&[], &none));
    let cmp = pred("a.lt", t("2")).unwrap();
    assert!(cmp.eval(&forms(&["q", "1.5"]), &none));
    assert!(!cmp.eval(&forms(&["q", "nan", "2"]), &none));
    let ne = pred("a.ne_ref", t("v")).unwrap();
    let mut binds = Bindings::new();
    binds.insert("v".into(), "x".into());
    assert!(ne.eval(&forms(&["y"]), &binds));
    assert!(!ne.eval(&forms(&["y", "x"]), &binds));
    assert!(!ne.eval(&[], &binds));
    assert!(!ne.eval(&forms(&["y"]), &none));
    assert_eq!(ne.attr_name(), "a");
}

#[test]
fn comparisons_test_numbers() {
    let n = |s: &str| parse_number(s).unwrap();
    assert!(CmpOp::Gt.test(n("2"), n("1.5")) && !CmpOp::Gt.test(n("1"), n("1")));
    assert!(CmpOp::Lt.test(n("-1"), n("0")) && !CmpOp::Lt.test(n("0"), n("-0")));
    assert!(CmpOp::Ge.test(n("1e3"), n("1000")) && CmpOp::Le.test(n("-inf"), n("-1e308")));
    assert!(!CmpOp::Ge.test(n("nan"), n("nan")) && !CmpOp::Le.test(n("nan"), n("1")));
    assert!(CountOp::Eq.test(3, 3) && !CountOp::Eq.test(3, 4) && CountOp::Le.test(3, 3));
    assert!(CountOp::Gt.test(4, 3) && CountOp::Lt.test(2, 3) && CountOp::Ge.test(3, 3));
}

fn plain_step(attr: &str, value: &str) -> RawStep {
    let mut attrs = Attrs::new();
    attrs.insert(attr.to_string(), t(value));
    RawStep { event: None, attrs, quant: None, negate: None, bind: None, alt: None }
}

#[test]
fn one_or_more_is_a_match_and_a_repetition() {
    let mut raw = plain_step("text", "x");
    raw.quant = Some("one_or_more".into());
    raw.negate = Some(true);
    let mut bind = Bindings::new();
    bind.insert("v".into(), "text".into());
    raw.bind = Some(bind);
    let steps = compile_step(&raw).unwrap();
    assert_eq!(steps.len(), 2);
    assert_eq!((steps[0].quant, steps[1].quant), (Quant::One, Quant::ZeroOrMore));
    assert!(steps[0].negate && steps[1].negate);
    assert_eq!(steps[0].bind.len(), 1);
    assert!(steps[1].bind.is_empty());
}

#[test]
fn steps_are_checked() {
    let mut raw = plain_step("text", "x");
    raw.quant = Some("many".into());
    assert_eq!(compile_step(&raw).unwrap_err(), "unknown quantifier `many`");
    let mut raw = plain_step("text", "x");
    raw.alt = Some(vec![vec![plain_step("text", "a")], vec![]]);
    assert_eq!(compile_step(&raw).unwrap_err(), "each `alt` alternative must be a single step");
    let mut raw = plain_step("text", "x");
    raw.event = Some("Nope".into());
    assert_eq!(compile_step(&raw).unwrap_err(), "unknown event kind `Nope`");
    raw.event = Some("Any".into());
    let steps = compile_step(&raw).unwrap();
    assert!(matches!(steps[0].matcher, StepMatcher::Pat { kind: None, .. }));
    let mut raw = plain_step("text", "x");
    raw.alt = Some(vec![vec![plain_step("text", "a")], vec![plain_step("class", "b")]]);
    assert!(matches!(&compile_step(&raw).unwrap()[0].matcher, StepMatcher::Alt(v) if v.len() == 2));
}

fn message(raw: &RawRule) -> String {
    match compile_rule(raw) {
        Ok(_) => panic!("accepted"),
        Err(e) => e.message(),
    }
}

#[test]
fn rules_are_checked() {
    let clause = || vec![RawMatch { event: None, attrs: Attrs::new() }];
    let mut raw = blank("R");
    raw.count = Some(RawCount { rule: "X".into(), scope: default_count_scope(), op: "gt".into(), n: 1 });
    raw.where_scope = Some(RawWhereScope { contains: clause(), not_contains: vec![], followed_by: vec![] });
    assert_eq!(message(&raw), "rule `R`: `where_scope` is only valid on a single `match` rule");
    let mut raw = blank("R");
    raw.count = Some(RawCount { rule: "X".into(), scope: "file".into(), op: "ne".into(), n: 1 });
    assert_eq!(message(&raw), "rule `R`: unknown count op `ne`");
    let mut raw = blank("R");
    raw.compose = Some(RawCompose { op: "union".into(), of: vec![], key: vec![] });
    assert_eq!(message(&raw), "rule `R`: `compose.of` must list at least one rule id");
    let mut raw = blank("R");
    raw.match_ = Some(RawMatch { event: Some(EventKind::Token), attrs: Attrs::new() });
    assert!(compile_rule(&raw).is_ok());
    raw.where_scope = Some(RawWhereScope { contains: clause(), not_contains: vec![], followed_by: vec![] });
    assert!(message(&raw).starts_with("rule `R`: Token matching is single-event only"));
    let parse: Result<_, RuleError> = load(Err("bad".into()));
    assert_eq!(parse.unwrap_err().message(), "failed to parse rules: bad");
}

#[test]
fn the_first_fault_of_a_file_is_reported() {
    let mut ok = blank("A");
    ok.match_ = Some(RawMatch { event: None, attrs: Attrs::new() });
    let file = RuleFile { rules: vec![ok, blank("B"), blank("C")], waivers_dir: None, adr_dir: None };
    let e = load(Ok(file)).unwrap_err();
    assert!(e.message().starts_with("rule `B`: "));
}

fn token(interner: &mut Interner, text: &str) -> Token {
    Token {
        kind: interner.intern("identifier"),
        text: interner.intern(text),
        func: interner.intern(""),
        class: interner.intern("ident"),
        named: true,
        start_byte: 0,
        end_byte: 1,
        start_line: 1,
        start_col: 1,
        end_line: 1,
        end_col: 2,
        curly: 0,
        round: 0,
        bracket: 0,
        jmp: NO_JMP,
    }
}

#[test]
fn steps_accept_and_capture() {
    let mut interner = Interner::new();
    let tok = token(&mut interner, "foo");
    let r = TokenRef { token: &tok, interner: &interner };
    let mut raw = plain_step("text", "foo");
    let mut bind = Bindings::new();
    bind.insert("v".into(), "text".into());
    bind.insert("w".into(), "nothing".into());
    raw.bind = Some(bind);
    let step = compile_step(&raw).unwrap().remove(0);
    let none = Bindings::new();
    assert!(step.accepts(&r, &none));
    let got = step.apply_bind(&r, &none);
    assert_eq!(got.get("v").map(|s| s.as_str()), Some("foo"));
    assert!(got.get("w").is_none());
    raw.negate = Some(true);
    assert!(!compile_step(&raw).unwrap()[0].accepts(&r, &none));
}

#[test]
fn events_match_by_kind_and_attribute() {
    let span = Span { start_byte: 0, end_byte: 0, start_line: 1, start_col: 1, end_line: 1, end_col: 1 };
    let call = Event::new(EventKind::Call, Language::Go, "a.go".into(), span)
        .with("name", t("lock"))
        .with("args", Datum::Sequence(vec![t("a"), Datum::Bool(true)]));
    let mut raw = plain_step("name", "lock");
    raw.event = Some("Call".into());
    let step = compile_step(&raw).unwrap().remove(0);
    let none = Bindings::new();
    assert!(step.accepts(&call, &none));
    let import = Event::new(EventKind::Import, Language::Go, "a.go".into(), span).with("name", t("lock"));
    assert!(!step.accepts(&import, &none));
    assert_eq!(call.attr_strings("args"), vec!["a", "true"]);
    assert!(call.attr_strings("none").is_empty());
    // Setting an attribute again replaces it.
    let again = call.with("name", t("unlock"));
    assert_eq!(again.attr_strings("name"), vec!["unlock"]);
}

#[test]
fn association_lists_keep_key_order() {
    let mut m: TextMap<String> = TextMap::new();
    for k in ["b", "a", "c", "a"] {
        m.insert(k.to_string(), format!("{k}!"));
    }
    let keys: Vec<&str> = m.entries.iter().map(|e| e.0.as_str()).collect();
    assert_eq!(keys, vec!["a", "b", "c"]);
    m.add("a".to_string(), "again".to_string());
    let values: Vec<&str> = m.entries.iter().map(|e| e.1.as_str()).collect();
    assert_eq!(values, vec!["a!", "again", "b!", "c!"]);
    assert_eq!(m.get("a").map(|s| s.as_str()), Some("a!"));
    assert!(m.get("z").is_none());
}
