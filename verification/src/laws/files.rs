//! Rules and rule files: from their tokens to compiled rules.

use vstd::prelude::*;

use crate::compile::{
    clause_of,
    clauses_of,
    collected,
    compose_of,
    count_of,
    glob_set,
    lemma_collected_all,
    lemma_collected_each,
    preds_of,
    rule_of,
    rules_of,
    sequence_of,
    where_of,
};
use crate::dsl::{
    clause_at,
    clauses_from,
    drafted,
    empty_draft,
    file_from,
    is_mark,
    is_word,
    parsed,
    pattern_at,
    rule_at,
    sequence_at,
    statement_at,
    statements_from,
    tok_at,
    u64_of,
    DraftModel,
    Toks,
};
use crate::laws::grammar::{
    comma_at,
    lemma_stands_skip,
    lemma_worded,
    mark,
    stands,
    word,
    worded,
    yields,
};
use crate::lexer::{lexed, Mark, TokModel};
use crate::rules::{ClauseModel, ComposeModel, CountModel, CountOp, CountScope, KeyPart, RuleModel, SetOp};
use crate::schema::{
    AttrsModel,
    RawMatchModel,
    RawRuleModel,
    RawSequenceModel,
    RawWhereModel,
    RuleFileModel,
    Severity,
};

verus! {

proof fn lemma_body_words()
    ensures
        "match"@.len() == 5,
        "count"@.len() == 5,
        "sequence"@.len() == 8,
        "compose"@.len() == 7,
        "lang"@.len() == 4,
        "in"@.len() == 2,
        "not"@.len() == 3,
        "desc"@.len() == 4,
        "message"@.len() == 7,
        "unless"@.len() == 6,
        "match"@[0] == 'm',
        "count"@[0] == 'c',
        "compose"@[0] == 'c',
        "message"@[0] == 'm',
{
    reveal_strlit("lang");
    reveal_strlit("in");
    reveal_strlit("not");
    reveal_strlit("desc");
    reveal_strlit("message");
    reveal_strlit("unless");
    reveal_strlit("match");
    reveal_strlit("sequence");
    reveal_strlit("compose");
    reveal_strlit("count");
}

/// Whether clauses stand at a position, each after `where`, that add up to those given.
pub open spec fn claused(
    t: Toks,
    p: int,
    done: RawWhereModel,
    w: RawWhereModel,
    n: nat,
    q: int,
) -> bool
    decreases n,
{
    if n == 0 {
        !is_word(t, p, "where"@) && p == q && done == w
    } else {
        is_word(t, p, "where"@) && match clause_at(t, p + 1, done) {
            Ok((next, r)) => p < r <= t.len() && claused(t, r, next, w, (n - 1) as nat, q),
            Err(_) => false,
        }
    }
}

proof fn lemma_claused(t: Toks, p: int, done: RawWhereModel, w: RawWhereModel, n: nat, q: int)
    requires
        claused(t, p, done, w, n, q),
    ensures
        yields(clauses_from(t, p, done), w, q),
    decreases n,
{
    if n > 0 {
        let (next, r) = clause_at(t, p + 1, done)->Ok_0;
        lemma_claused(t, r, next, w, (n - 1) as nat, q);
    }
}

/// `match` sets the single pattern of a rule, and with clauses behind it what the enclosing
/// block has to hold; it changes nothing else.
pub proof fn match_sets_the_pattern(
    t: Toks,
    p: int,
    d: DraftModel,
    attrs: AttrsModel,
    r: int,
    w: RawWhereModel,
    n: nat,
    q: int,
)
    requires
        is_word(t, p, "match"@),
        yields(pattern_at(t, p + 1), attrs, r),
        claused(
            t,
            r,
            (RawWhereModel {
                contains: Seq::empty(),
                not_contains: Seq::empty(),
                followed_by: Seq::empty(),
            }),
            w,
            n,
            q,
        ),
    ensures
        yields(
            statement_at(t, p, d),
            DraftModel {
                match_: Some(RawMatchModel { event: None, attrs }),
                where_scope: if n > 0 {
                    Some(w)
                } else {
                    d.where_scope
                },
                ..d
            },
            q,
        ),
{
    lemma_body_words();
    let none = RawWhereModel {
        contains: Seq::empty(),
        not_contains: Seq::empty(),
        followed_by: Seq::empty(),
    };
    lemma_claused(t, r, none, w, n, q);
}

/// `sequence` sets the sequence of a rule and changes nothing else.
pub proof fn sequence_sets_the_sequence(
    t: Toks,
    p: int,
    d: DraftModel,
    s: RawSequenceModel,
    q: int,
)
    requires
        is_word(t, p, "sequence"@),
        yields(sequence_at(t, p + 1), s, q),
    ensures
        yields(statement_at(t, p, d), DraftModel { match_sequence: Some(s), ..d }, q),
{
    lemma_body_words();
}

/// The word for a set operation.
pub open spec fn op_word(op: SetOp) -> Seq<char> {
    match op {
        SetOp::Intersection => "intersection"@,
        SetOp::Union => "union"@,
        SetOp::Difference => "difference"@,
    }
}

/// The word for a part of a key.
pub open spec fn key_word(k: KeyPart) -> Seq<char> {
    match k {
        KeyPart::File => "file"@,
        KeyPart::Function => "function"@,
    }
}

/// The words for a key.
pub open spec fn key_words(key: Seq<KeyPart>) -> Seq<Seq<char>> {
    key.map_values(|k: KeyPart| key_word(k))
}

proof fn lemma_key_words(key: Seq<KeyPart>)
    ensures
        collected(
            key_words(key).map_values(|k: Seq<char>| crate::compile::key_part_of(k)),
        ) == Ok::<Seq<KeyPart>, Seq<char>>(key),
{
    reveal_strlit("file");
    reveal_strlit("function");
    assert("file"@.len() == 4 && "function"@.len() == 8);
    let items = key_words(key).map_values(|k: Seq<char>| crate::compile::key_part_of(k));
    assert forall|i: int| 0 <= i < items.len() implies #[trigger] items[i] == Ok::<
        KeyPart,
        Seq<char>,
    >(key[i]) by {}
    lemma_collected_all(items, key);
}

/// Whether `compose OP of A, B` stands at a position, with `by` and a key behind it unless the
/// key is empty.
pub open spec fn compose_written(t: Toks, p: int, op: SetOp, of: Seq<Seq<char>>, key: Seq<KeyPart>) -> bool {
    if key.len() == 0 {
        stands(t, p, seq![word("compose"@), word(op_word(op)), word("of"@)] + worded(of))
            && !comma_at(t, p + 2 + 2 * of.len()) && !is_word(t, p + 2 + 2 * of.len(), "by"@)
    } else {
        stands(
            t,
            p,
            seq![word("compose"@), word(op_word(op)), word("of"@)] + worded(of) + (seq![word("by"@)]
                + worded(key_words(key))),
        ) && !comma_at(t, p + 2 + 2 * of.len() + 2 * key.len())
    }
}

/// `compose OP of A, B by file, function` sets the set operation of a rule, over the rules
/// that it lists and keyed as it says; without `by` it is keyed by the file.
pub proof fn compose_sets_the_operation(
    t: Toks,
    p: int,
    d: DraftModel,
    op: SetOp,
    of: Seq<Seq<char>>,
    key: Seq<KeyPart>,
)
    requires
        of.len() > 0,
        compose_written(t, p, op, of, key),
    ensures
        match statement_at(t, p, d) {
            Ok((e, q)) => {
                &&& q == p + 2 + 2 * of.len() + 2 * key.len()
                &&& e.compose is Some
                &&& e == DraftModel { compose: e.compose, ..d }
                &&& compose_of(e.compose->0) == Ok::<ComposeModel, Seq<char>>(
                    ComposeModel {
                        op,
                        of,
                        key: if key.len() == 0 {
                            seq![KeyPart::File]
                        } else {
                            key
                        },
                    },
                )
            },
            Err(_) => false,
        },
{
    let raw = crate::schema::RawComposeModel { op: op_word(op), of, key: key_words(key) };
    lemma_composed(t, p, op, of, key);
    lemma_body_words();
    lemma_compose_of(op, of, key);
    assert(tok_at(t, p) == Some(word("compose"@)));
    assert(yields(statement_at(t, p, d), DraftModel { compose: Some(raw), ..d }, p + 2 + 2
        * of.len() + 2 * key.len()));
}

proof fn lemma_composed(t: Toks, p: int, op: SetOp, of: Seq<Seq<char>>, key: Seq<KeyPart>)
    requires
        of.len() > 0,
        compose_written(t, p, op, of, key),
    ensures
        tok_at(t, p) == Some(word("compose"@)),
        yields(
            crate::dsl::compose_at(t, p + 1),
            crate::schema::RawComposeModel { op: op_word(op), of, key: key_words(key) },
            p + 2 + 2 * of.len() + 2 * key.len(),
        ),
{
    let head = seq![word("compose"@), word(op_word(op)), word("of"@)];
    let none = Seq::<Seq<char>>::empty();
    let b = p + 2 + 2 * of.len();
    lemma_worded_len(of);
    if key.len() > 0 {
        lemma_worded_len(key_words(key));
        let tail = seq![word("by"@)] + worded(key_words(key));
        lemma_stands_skip(t, p, head + worded(of), tail);
        lemma_stands_skip(t, p, head, worded(of));
        lemma_stands_skip(t, b, seq![word("by"@)], worded(key_words(key)));
        assert(tok_at(t, b + 0) == Some(seq![word("by"@)][0]));
        lemma_worded(t, b + 1, key_words(key), none);
        assert(none + key_words(key) =~= key_words(key));
    } else {
        lemma_stands_skip(t, p, head, worded(of));
        assert(key_words(key) =~= none);
    }
    assert(tok_at(t, p + 0) == Some(head[0]) && tok_at(t, p + 1) == Some(head[1]));
    assert(tok_at(t, p + 2) == Some(head[2]));
    lemma_worded(t, p + 3, of, none);
    assert(none + of =~= of);
}

proof fn lemma_compose_of(op: SetOp, of: Seq<Seq<char>>, key: Seq<KeyPart>)
    requires
        of.len() > 0,
    ensures
        compose_of(
            crate::schema::RawComposeModel { op: op_word(op), of, key: key_words(key) },
        ) == Ok::<ComposeModel, Seq<char>>(
            ComposeModel {
                op,
                of,
                key: if key.len() == 0 {
                    seq![KeyPart::File]
                } else {
                    key
                },
            },
        ),
{
    reveal_strlit("intersection");
    reveal_strlit("union");
    reveal_strlit("difference");
    assert("intersection"@.len() == 12 && "union"@.len() == 5 && "difference"@.len() == 10);
    lemma_key_words(key);
}

proof fn lemma_worded_len(gs: Seq<Seq<char>>)
    requires
        gs.len() > 0,
    ensures
        worded(gs).len() == 2 * gs.len() - 1,
    decreases gs.len(),
{
    if gs.len() > 1 {
        lemma_worded_len(gs.drop_first());
    }
}

/// The mark for a comparison.
pub open spec fn op_mark(op: CountOp) -> Mark {
    match op {
        CountOp::Gt => Mark::Gt,
        CountOp::Lt => Mark::Lt,
        CountOp::Ge => Mark::Ge,
        CountOp::Le => Mark::Le,
        CountOp::Eq => Mark::EqEq,
    }
}

/// The word for what is counted together.
pub open spec fn scope_word(s: CountScope) -> Seq<char> {
    match s {
        CountScope::File => "file"@,
        CountScope::Function => "function"@,
    }
}

/// `count RULE per SCOPE <op> N` sets the threshold of a rule: the rule that it counts, what
/// is counted together, the comparison and the number.
pub proof fn count_sets_the_threshold(
    t: Toks,
    p: int,
    d: DraftModel,
    rule: Seq<char>,
    scope: CountScope,
    op: CountOp,
    s: Seq<char>,
    n: u64,
)
    requires
        stands(
            t,
            p,
            seq![
                word("count"@),
                word(rule),
                word("per"@),
                word(scope_word(scope)),
                mark(op_mark(op)),
                TokModel::Num(s),
            ],
        ),
        u64_of(s) == Some(n),
    ensures
        match statement_at(t, p, d) {
            Ok((e, q)) => {
                &&& q == p + 6
                &&& e.count is Some
                &&& e == DraftModel { count: e.count, ..d }
                &&& count_of(e.count->0) == Ok::<CountModel, Seq<char>>(
                    CountModel { rule, scope, op, n },
                )
            },
            Err(_) => false,
        },
{
    lemma_body_words();
    reveal_strlit("file");
    reveal_strlit("function");
    assert("file"@.len() == 4 && "function"@.len() == 8);
    reveal_strlit("gt");
    reveal_strlit("lt");
    reveal_strlit("ge");
    reveal_strlit("le");
    reveal_strlit("eq");
    assert("gt"@[0] == 'g' && "lt"@[0] == 'l' && "ge"@[0] == 'g' && "le"@[0] == 'l');
    assert("gt"@[1] == 't' && "lt"@[1] == 't' && "ge"@[1] == 'e' && "le"@[1] == 'e');
    assert("eq"@[0] == 'e');
    let ws = seq![
        word("count"@),
        word(rule),
        word("per"@),
        word(scope_word(scope)),
        mark(op_mark(op)),
        TokModel::Num(s),
    ];
    assert(tok_at(t, p + 0) == Some(ws[0]) && tok_at(t, p + 1) == Some(ws[1]));
    assert(tok_at(t, p + 2) == Some(ws[2]) && tok_at(t, p + 3) == Some(ws[3]));
    assert(tok_at(t, p + 4) == Some(ws[4]) && tok_at(t, p + 5) == Some(ws[5]));
}

/// A threshold is the number that its digits denote in base ten.
pub proof fn thresholds_are_numbers(n: u64)
    ensures
        u64_of(crate::text::decimal_of(n as nat)) == Some(n),
{
    crate::laws::reports::numerals_denote_numbers(n as nat);
}

// ---------------------------------------------------------------------------
// Rules
// ---------------------------------------------------------------------------

/// The severity of a rule in parentheses, or nothing for the default.
pub open spec fn severity_toks(s: Option<Severity>) -> Seq<TokModel> {
    match s {
        Some(Severity::Error) => seq![mark(Mark::LParen), word("error"@), mark(Mark::RParen)],
        Some(Severity::Warning) => seq![mark(Mark::LParen), word("warning"@), mark(Mark::RParen)],
        None => Seq::empty(),
    }
}

/// The draft of a rule before its first statement: there is nothing in it.
pub open spec fn is_blank(d: DraftModel) -> bool {
    &&& d.description is None
    &&& d.message is None
    &&& d.languages is None
    &&& d.includes.len() == 0
    &&& d.excludes.len() == 0
    &&& d.unless.path_matches is None
    &&& d.unless.waiver_exists is None
    &&& d.unless.adr_exists is None
    &&& !d.has_unless
    &&& d.match_ is None
    &&& d.match_sequence is None
    &&& d.where_scope is None
    &&& d.compose is None
    &&& d.count is None
}

/// Whether a rule says what its statements say.
pub open spec fn holds_draft(r: RawRuleModel, d: DraftModel) -> bool {
    &&& r.description == d.description
    &&& r.message == d.message
    &&& r.match_ == d.match_
    &&& r.match_sequence == d.match_sequence
    &&& r.where_scope == d.where_scope
    &&& r.compose == d.compose
    &&& r.count == d.count
    &&& r.unless == (if d.has_unless {
        Some(d.unless)
    } else {
        None
    })
    &&& match r.applies_to {
        Some(a) => {
            &&& a.languages == d.languages
            &&& match a.paths {
                Some(p) => p.0 == d.includes && p.1 == d.excludes,
                None => d.includes.len() == 0 && d.excludes.len() == 0,
            }
        },
        None => d.languages is None && d.includes.len() == 0 && d.excludes.len() == 0,
    }
}

/// A rule is its name, its severity, which is error where none is given, and what its
/// statements between the braces say, from nothing.
#[verifier::spinoff_prover]
#[verifier::rlimit(60)]
pub proof fn rules_hold_their_statements(
    t: Toks,
    p: int,
    id: Seq<char>,
    severity: Option<Severity>,
    d: DraftModel,
    e: DraftModel,
    q: int,
)
    requires
        is_blank(d),
        stands(
            t,
            p,
            seq![word("rule"@), word(id)] + severity_toks(severity) + seq![mark(Mark::LBrace)],
        ),
        yields(statements_from(t, p + 3 + severity_toks(severity).len(), d), e, q),
    ensures
        match rule_at(t, p) {
            Ok((r, end)) => {
                &&& end == q
                &&& r.id == id
                &&& r.severity == (match severity {
                    Some(s) => s,
                    None => Severity::Error,
                })
                &&& holds_draft(r, e)
            },
            Err(_) => false,
        },
{
    let s = match severity {
        Some(s) => s,
        None => Severity::Error,
    };
    lemma_blank(d);
    lemma_rule_toks(t, p, id, severity);
    lemma_severity(t, p + 2, severity);
    lemma_rule_read(t, p, id, s, p + 2 + severity_toks(severity).len(), e, q);
    lemma_drafted(id, s, e);
}

proof fn lemma_blank(d: DraftModel)
    requires
        is_blank(d),
    ensures
        d == empty_draft(),
{
    assert(d.includes =~= Seq::<Seq<char>>::empty());
    assert(d.excludes =~= Seq::<Seq<char>>::empty());
}

proof fn lemma_rule_toks(t: Toks, p: int, id: Seq<char>, severity: Option<Severity>)
    requires
        stands(
            t,
            p,
            seq![word("rule"@), word(id)] + severity_toks(severity) + seq![mark(Mark::LBrace)],
        ),
    ensures
        is_word(t, p, "rule"@),
        tok_at(t, p + 1) == Some(word(id)),
        stands(t, p + 2, severity_toks(severity)),
        is_mark(t, p + 2 + severity_toks(severity).len(), Mark::LBrace),
{
    let a = seq![word("rule"@), word(id)];
    let b = severity_toks(severity);
    let c = seq![mark(Mark::LBrace)];
    lemma_stands_skip(t, p, a + b, c);
    lemma_stands_skip(t, p, a, b);
    assert(tok_at(t, p + 0) == Some(a[0]) && tok_at(t, p + 1) == Some(a[1]));
    assert(tok_at(t, p + (a + b).len() + 0) == Some(c[0]));
}

proof fn lemma_severity(t: Toks, p: int, severity: Option<Severity>)
    requires
        stands(t, p, severity_toks(severity)),
        is_mark(t, p + severity_toks(severity).len(), Mark::LBrace),
    ensures
        yields(
            crate::dsl::severity_at(t, p),
            match severity {
                Some(s) => s,
                None => Severity::Error,
            },
            p + severity_toks(severity).len(),
        ),
{
    let b = severity_toks(severity);
    if severity is Some {
        assert(tok_at(t, p + 0) == Some(b[0]) && tok_at(t, p + 1) == Some(b[1]));
        assert(tok_at(t, p + 2) == Some(b[2]));
        reveal_strlit("error");
        reveal_strlit("warning");
        assert("error"@.len() == 5 && "warning"@.len() == 7);
    }
}

#[verifier::spinoff_prover]
#[verifier::rlimit(60)]
proof fn lemma_rule_read(t: Toks, p: int, id: Seq<char>, s: Severity, b: int, e: DraftModel, q: int)
    requires
        is_word(t, p, "rule"@),
        tok_at(t, p + 1) == Some(word(id)),
        yields(crate::dsl::severity_at(t, p + 2), s, b),
        is_mark(t, b, Mark::LBrace),
        yields(statements_from(t, b + 1, empty_draft()), e, q),
    ensures
        yields(rule_at(t, p), drafted(id, s, e), q),
{
    reveal(rule_at);
}

proof fn lemma_drafted(id: Seq<char>, s: Severity, e: DraftModel)
    ensures
        drafted(id, s, e).id == id,
        drafted(id, s, e).severity == s,
        holds_draft(drafted(id, s, e), e),
{
}

/// Statements are read one after the other, each adding to those before, up to the brace that
/// closes the rule.
pub proof fn statements_follow_each_other(t: Toks, p: int, d: DraftModel, e: DraftModel, q: int)
    ensures
        is_mark(t, p, Mark::RBrace) ==> yields(statements_from(t, p, d), d, p + 1),
        !is_mark(t, p, Mark::RBrace) && tok_at(t, p) is Some && p < q <= t.len() && yields(
            statement_at(t, p, d),
            e,
            q,
        ) ==> statements_from(t, p, d) == statements_from(t, q, e),
{
}

/// Whether rules stand one after the other from a position to the end.
pub open spec fn ruled(t: Toks, p: int, rs: Seq<RawRuleModel>) -> bool
    decreases rs.len(),
{
    if rs.len() == 0 {
        tok_at(t, p) is None
    } else {
        is_word(t, p, "rule"@) && match rule_at(t, p) {
            Ok((r, q)) => p < q <= t.len() && r == rs[0] && ruled(t, q, rs.drop_first()),
            Err(_) => false,
        }
    }
}

/// A file holds its rules in order, behind those read before, and where the waivers and the
/// decisions are, if it says so.
pub proof fn files_hold_their_rules(t: Toks, p: int, f: RuleFileModel, rs: Seq<RawRuleModel>, s: Seq<char>)
    ensures
        ruled(t, p, rs) ==> file_from(t, p, f) == Ok::<RuleFileModel, Seq<char>>(
            RuleFileModel { rules: f.rules + rs, ..f },
        ),
        stands(t, p, seq![word("waivers"@), TokModel::Str(s)]) ==> file_from(t, p, f) == file_from(
            t,
            p + 2,
            (RuleFileModel { waivers_dir: Some(s), ..f }),
        ),
        stands(t, p, seq![word("adrs"@), TokModel::Str(s)]) ==> file_from(t, p, f) == file_from(
            t,
            p + 2,
            (RuleFileModel { adr_dir: Some(s), ..f }),
        ),
    decreases rs.len(),
{
    reveal_strlit("rule");
    reveal_strlit("waivers");
    reveal_strlit("adrs");
    assert("rule"@.len() == 4 && "waivers"@.len() == 7 && "adrs"@.len() == 4);
    assert("rule"@[0] == 'r' && "adrs"@[0] == 'a');
    let a = seq![word("waivers"@), TokModel::Str(s)];
    let b = seq![word("adrs"@), TokModel::Str(s)];
    if stands(t, p, a) {
        assert(tok_at(t, p + 0) == Some(a[0]) && tok_at(t, p + 1) == Some(a[1]));
    }
    if stands(t, p, b) {
        assert(tok_at(t, p + 0) == Some(b[0]) && tok_at(t, p + 1) == Some(b[1]));
    }
    if ruled(t, p, rs) {
        if rs.len() == 0 {
            assert(f.rules + rs =~= f.rules);
        } else {
            let (r, q) = rule_at(t, p)->Ok_0;
            let next = RuleFileModel { rules: f.rules.push(r), ..f };
            files_hold_their_rules(t, q, next, rs.drop_first(), s);
            assert(f.rules.push(r) + rs.drop_first() =~= f.rules + rs);
        }
    }
}

/// A rule file begins with no rules and the usual directories; its text is read token by
/// token.
pub proof fn files_begin_empty(text: Seq<char>, t: Toks)
    requires
        lexed(text) == Ok::<Toks, Seq<char>>(t),
    ensures
        exists|f: RuleFileModel|
            f.rules.len() == 0 && f.waivers_dir is None && f.adr_dir is None && parsed(text)
                == #[trigger] file_from(t, 0, f),
{
    let f = crate::dsl::empty_file();
    assert(parsed(text) == file_from(t, 0, f));
}

// ---------------------------------------------------------------------------
// Compilation
// ---------------------------------------------------------------------------

/// The globs of a list: none for an empty list.
pub open spec fn globs_of(list: Seq<Seq<char>>) -> Option<Seq<Seq<char>>> {
    if list.len() == 0 {
        None
    } else {
        Some(list)
    }
}

proof fn lemma_globs(list: Seq<Seq<char>>)
    requires
        glob_set(list) is Ok,
    ensures
        glob_set(list)->Ok_0 == globs_of(list),
{
    if list.len() > 0 {
        let items = list.map_values(|p: Seq<char>| crate::compile::checked_glob(p));
        lemma_collected_each(items);
        let v = collected(items)->Ok_0;
        assert forall|i: int| 0 <= i < list.len() implies v[i] == list[i] by {
            assert(items[i] == Ok::<Seq<char>, Seq<char>>(v[i]));
        }
        assert(v =~= list);
    }
}

/// A compiled rule keeps what the rule says of itself and of where it applies: its id,
/// severity, description, message, languages and globs, and its guards, where a waiver without
/// an id is one for the rule itself.
pub proof fn compiled_rules_keep_their_envelope(raw: RawRuleModel)
    requires
        rule_of(raw) is Ok,
    ensures
        ({
            let r = rule_of(raw)->Ok_0;
            &&& r.id == raw.id
            &&& r.severity == raw.severity
            &&& r.description == raw.description
            &&& r.message == raw.message
            &&& match raw.applies_to {
                Some(a) => {
                    &&& r.languages == a.languages
                    &&& match a.paths {
                        Some(p) => r.includes == globs_of(p.0) && r.excludes == globs_of(p.1),
                        None => r.includes is None && r.excludes is None,
                    }
                },
                None => r.languages is None && r.includes is None && r.excludes is None,
            }
            &&& match raw.unless {
                Some(u) => {
                    &&& r.unless is Some
                    &&& r.unless->0.path_matches == (match u.path_matches {
                        Some(list) => globs_of(list),
                        None => None,
                    })
                    &&& r.unless->0.waiver_rule == (match u.waiver_exists {
                        Some(Some(id)) => Some(id),
                        Some(None) => Some(raw.id),
                        None => None,
                    })
                    &&& r.unless->0.adr_topic == u.adr_exists
                },
                None => r.unless is None,
            }
        }),
{
    if let Some(a) = raw.applies_to {
        if let Some(p) = a.paths {
            lemma_globs(p.0);
            lemma_globs(p.1);
        }
    }
    if let Some(u) = raw.unless {
        if let Some(list) = u.path_matches {
            lemma_globs(list);
        }
    }
}

/// A compiled rule has the body that the rule writes down: the predicates of its pattern, its
/// sequence, its set operation or its threshold, and its scope clauses.
pub proof fn compiled_rules_keep_their_body(raw: RawRuleModel)
    requires
        rule_of(raw) is Ok,
    ensures
        ({
            let r = rule_of(raw)->Ok_0;
            &&& raw.match_ is Some ==> preds_of(raw.match_->0.attrs) == Ok::<
                Seq<crate::rules::PredModel>,
                Seq<char>,
            >(r.preds) && r.event == raw.match_->0.event
            &&& raw.match_sequence is Some ==> r.sequence is Some && sequence_of(
                raw.match_sequence->0,
            ) == Ok::<crate::rules::SequenceModel, Seq<char>>(r.sequence->0)
            &&& raw.compose is Some ==> r.compose is Some && compose_of(raw.compose->0) == Ok::<
                ComposeModel,
                Seq<char>,
            >(r.compose->0)
            &&& raw.count is Some ==> r.count is Some && count_of(raw.count->0) == Ok::<
                CountModel,
                Seq<char>,
            >(r.count->0)
            &&& raw.where_scope is Some ==> r.where_scope is Some && where_of(raw.where_scope->0)
                == Ok::<crate::rules::WhereModel, Seq<char>>(r.where_scope->0)
            &&& raw.match_sequence is None ==> r.sequence is None
            &&& raw.compose is None ==> r.compose is None
            &&& raw.count is None ==> r.count is None
            &&& raw.where_scope is None ==> r.where_scope is None
            &&& raw.match_ is None ==> r.preds.len() == 0 && r.event is None
            &&& raw.match_ is Some || raw.match_sequence is Some || raw.compose is Some || raw.count is Some
            &&& !(raw.match_ is Some && raw.match_sequence is Some)
            &&& !(raw.match_ is Some && raw.compose is Some)
            &&& !(raw.match_ is Some && raw.count is Some)
            &&& !(raw.match_sequence is Some && raw.compose is Some)
            &&& !(raw.match_sequence is Some && raw.count is Some)
            &&& !(raw.compose is Some && raw.count is Some)
        }),
{
}

/// Whether compiled clauses say what clauses write down, one for one.
pub open spec fn same_clauses(cs: Seq<ClauseModel>, raws: Seq<RawMatchModel>) -> bool {
    cs.len() == raws.len() && forall|i: int|
        0 <= i < cs.len() ==> (#[trigger] cs[i]).kind == raws[i].event && preds_of(raws[i].attrs)
            == Ok::<Seq<crate::rules::PredModel>, Seq<char>>(cs[i].preds)
}

proof fn lemma_clauses(raws: Seq<RawMatchModel>)
    requires
        clauses_of(raws) is Ok,
    ensures
        same_clauses(clauses_of(raws)->Ok_0, raws),
{
    let items = raws.map_values(|m: RawMatchModel| clause_of(m));
    lemma_collected_each(items);
    let cs = clauses_of(raws)->Ok_0;
    assert forall|i: int| 0 <= i < cs.len() implies (#[trigger] cs[i]).kind == raws[i].event
        && preds_of(raws[i].attrs) == Ok::<Seq<crate::rules::PredModel>, Seq<char>>(
        cs[i].preds,
    ) by {
        assert(items[i] == Ok::<ClauseModel, Seq<char>>(cs[i]));
    }
}

/// Compiled scope clauses stay of their kind: what has to be in the block, what must not be,
/// and what has to follow.
pub proof fn clauses_stay_of_their_kind(raw: RawWhereModel)
    requires
        where_of(raw) is Ok,
    ensures
        same_clauses(where_of(raw)->Ok_0.contains, raw.contains),
        same_clauses(where_of(raw)->Ok_0.not_contains, raw.not_contains),
        same_clauses(where_of(raw)->Ok_0.followed_by, raw.followed_by),
{
    lemma_clauses(raw.contains);
    lemma_clauses(raw.not_contains);
    lemma_clauses(raw.followed_by);
}

/// The rules of a file are compiled one by one, in order.
pub proof fn files_compile_rule_by_rule(rules: Seq<RawRuleModel>, i: int)
    requires
        rules_of(rules) is Ok,
        0 <= i < rules.len(),
    ensures
        rules_of(rules)->Ok_0.len() == rules.len(),
        rule_of(rules[i]) == Ok::<RuleModel, Seq<char>>(rules_of(rules)->Ok_0[i]),
{
    let items = rules.map_values(|r: RawRuleModel| crate::compile::checked_rule(r));
    lemma_collected_each(items);
    assert(items[i] == Ok::<RuleModel, Seq<char>>(rules_of(rules)->Ok_0[i]));
}

} // verus!
