//! What explanations say.

use vstd::prelude::*;

use crate::event::{kind_name, EventKind};
use crate::explain::{
    alt_pieces,
    bind_pieces,
    body_pieces,
    bracketed,
    clause_pieces,
    explanation,
    itemized,
    key_part_name,
    language_label,
    languages_pieces,
    matcher_pieces,
    numbered,
    opt_said,
    pred_pieces,
    preds_pieces,
    quoted,
    said,
    say,
    step_pieces,
    unless_pieces,
    where_pieces,
    PieceModel,
};
use crate::number::Number;
use crate::outside::debug_text;
use crate::rules::{
    ClauseModel,
    CmpOp,
    ComposeModel,
    CountModel,
    CountOp,
    CountScope,
    KeyPart,
    MatcherModel,
    PredModel,
    Quant,
    RuleModel,
    SequenceModel,
    SetOp,
    StepModel,
    UnlessModel,
    WhereModel,
};
use crate::schema::{severity_label, Severity};
use crate::text::decimal_of;
use crate::token::Language;

verus! {

/// Texts, one piece each.
pub open spec fn written(xs: Seq<Seq<char>>) -> Seq<PieceModel> {
    xs.map_values(|x: Seq<char>| PieceModel::Text(x))
}

/// A rule with an identifier, a severity and a body, and nothing else to tell.
pub open spec fn plain(r: RuleModel) -> RuleModel {
    RuleModel {
        description: None,
        message: None,
        languages: None,
        where_scope: None,
        unless: None,
        ..r
    }
}

/// The line that names a rule: `id [SEVERITY]`.
pub open spec fn title(r: RuleModel) -> Seq<PieceModel> {
    written(
        seq![
            r.id,
            " ["@,
            match r.severity {
                Severity::Error => "ERROR"@,
                Severity::Warning => "WARNING"@,
            },
            "]\n"@,
        ],
    )
}

// The parts of an explanation: its title, and what follows the description.
proof fn lemma_after_title(r: RuleModel)
    ensures
        ({
            let rest = languages_pieces(r.languages) + (body_pieces(r) + where_pieces(r.where_scope)
                + unless_pieces(r.unless) + opt_said("\nremediation: "@, r.message, "\n"@));
            explanation(r) == title(r) + (opt_said("\n"@, r.description, "\n"@) + rest)
        }),
{
    let head = say(r.id) + say(" ["@) + say(severity_label(r.severity)) + say("]\n"@);
    assert(head =~= title(r));
    lemma_regrouped(
        head,
        opt_said("\n"@, r.description, "\n"@),
        languages_pieces(r.languages),
        body_pieces(r),
        where_pieces(r.where_scope),
        unless_pieces(r.unless),
        opt_said("\nremediation: "@, r.message, "\n"@),
    );
}

proof fn lemma_regrouped<T>(
    h: Seq<T>,
    d: Seq<T>,
    l: Seq<T>,
    b: Seq<T>,
    w: Seq<T>,
    u: Seq<T>,
    m: Seq<T>,
)
    ensures
        h + d + l + b + w + u + m == h + (d + (l + (b + w + u + m))),
{
    assert(h + d + l + b + w + u + m =~= h + (d + (l + (b + w + u + m))));
}

// What follows a first part.
proof fn lemma_rest<T>(h: Seq<T>, rest: Seq<T>)
    ensures
        (h + rest).take(h.len() as int) == h,
        (h + rest).skip(h.len() as int) == rest,
        Seq::<T>::empty() + rest == rest,
{
    assert((h + rest).take(h.len() as int) =~= h);
    assert((h + rest).skip(h.len() as int) =~= rest);
    assert(Seq::<T>::empty() + rest =~= rest);
}

proof fn lemma_listed<T>(h: Seq<T>, a: Seq<T>, b: Seq<T>, c: Seq<T>, rest: Seq<T>)
    ensures
        h + (a + b + c + rest) == h + a + b + c + rest,
{
    assert(h + (a + b + c + rest) =~= h + a + b + c + rest);
}

/// A message ends the explanation, on a line `remediation:` of its own after an empty one.
pub proof fn messages_end_explanations(r: RuleModel, m: Seq<char>)
    ensures
        explanation(RuleModel { message: Some(m), ..r }) == explanation(
            RuleModel { message: None, ..r },
        ) + written(seq!["\nremediation: "@, m, "\n"@]),
{
    assert(explanation(RuleModel { message: Some(m), ..r }) =~= explanation(
        RuleModel { message: None, ..r },
    ) + written(seq!["\nremediation: "@, m, "\n"@]));
}

/// A description stands between empty lines behind the line that names the rule, and the
/// rest is as without it.
pub proof fn descriptions_follow_the_title(r: RuleModel, d: Seq<char>)
    ensures
        ({
            let bare = explanation(RuleModel { description: None, ..r });
            &&& bare.len() >= 4
            &&& bare.take(4) == title(r)
            &&& explanation(RuleModel { description: Some(d), ..r }) == title(r) + written(
                seq!["\n"@, d, "\n"@],
            ) + bare.skip(4)
        }),
{
    let none = RuleModel { description: None, ..r };
    let full = RuleModel { description: Some(d), ..r };
    let rest = languages_pieces(r.languages) + (body_pieces(r) + where_pieces(r.where_scope)
        + unless_pieces(r.unless) + opt_said("\nremediation: "@, r.message, "\n"@));
    assert(body_pieces(none) == body_pieces(r) && body_pieces(full) == body_pieces(r));
    lemma_after_title(none);
    lemma_after_title(full);
    lemma_rest(title(r), rest);
    assert(explanation(none) == title(r) + rest);
    let told = written(seq!["\n"@, d, "\n"@]);
    assert(opt_said("\n"@, Some(d), "\n"@) =~= told);
    assert(title(r) + (told + rest) =~= title(r) + told + rest);
}

/// What a language is called.
pub open spec fn called(l: Language) -> Seq<char> {
    match l {
        Language::Typescript => "Typescript"@,
        Language::Javascript => "Javascript"@,
        Language::Go => "Go"@,
        Language::Python => "Python"@,
        Language::Rust => "Rust"@,
    }
}

/// The languages of a rule stand behind its title, on a line `languages:` that holds their
/// names in order.
pub proof fn languages_are_listed(r: RuleModel, ls: Seq<Language>)
    ensures
        ({
            let bare = explanation(RuleModel { description: None, languages: None, ..r });
            explanation(RuleModel { description: None, languages: Some(ls), ..r }) == title(r)
                + written(seq!["languages: "@]) + bracketed(
                said(Seq::new(ls.len(), |i: int| called(ls[i]))),
            ) + written(seq!["\n"@]) + bare.skip(4)
        }),
{
    let none = RuleModel { description: None, languages: None, ..r };
    let full = RuleModel { description: None, languages: Some(ls), ..r };
    let names = Seq::new(ls.len(), |i: int| called(ls[i]));
    assert(names =~= ls.map_values(|l: Language| language_label(l)));
    let rest = body_pieces(r) + where_pieces(r.where_scope) + unless_pieces(r.unless) + opt_said(
        "\nremediation: "@,
        r.message,
        "\n"@,
    );
    assert(body_pieces(none) == body_pieces(r) && body_pieces(full) == body_pieces(r));
    lemma_after_title(none);
    lemma_after_title(full);
    lemma_rest(title(r), rest);
    assert(explanation(none) == title(r) + rest);
    let list = bracketed(said(names));
    lemma_rest(title(r), languages_pieces(Some(ls)) + rest);
    assert(written(seq!["languages: "@]) =~= say("languages: "@));
    assert(written(seq!["\n"@]) =~= say("\n"@));
    lemma_listed(title(r), say("languages: "@), list, say("\n"@), rest);
}

/// A list stands in square brackets with commas between its items.
pub proof fn lists_stand_in_brackets(items: Seq<Seq<PieceModel>>, x: Seq<PieceModel>)
    ensures
        bracketed(Seq::empty()) == written(seq!["["@, "]"@]),
        bracketed(seq![x]) == written(seq!["["@]) + x + written(seq!["]"@]),
        items.len() > 0 ==> bracketed(items.push(x)) == bracketed(items).drop_last() + written(
            seq![", "@],
        ) + x + written(seq!["]"@]),
{
    assert(bracketed(Seq::empty()) =~= written(seq!["["@, "]"@]));
    assert(bracketed(seq![x]) =~= written(seq!["["@]) + x + written(seq!["]"@]));
    assert(items.push(x).drop_last() =~= items);
    if items.len() > 0 {
        assert(bracketed(items.push(x)) =~= bracketed(items).drop_last() + written(seq![", "@]) + x
            + written(seq!["]"@]));
    }
}

/// What a threshold comparison is called.
pub open spec fn compared(op: CountOp) -> Seq<char> {
    match op {
        CountOp::Gt => "Gt"@,
        CountOp::Lt => "Lt"@,
        CountOp::Ge => "Ge"@,
        CountOp::Le => "Le"@,
        CountOp::Eq => "Eq"@,
    }
}

/// Of a rule that counts, the explanation says whose violations it counts, per what, and when
/// it fires.
pub proof fn counting_rules_say_what_they_count(r: RuleModel, c: CountModel)
    requires
        r.compose is None,
        r.count == Some(c),
    ensures
        explanation(plain(r)) == title(r) + written(
            seq![
                "\ncounts `"@,
                c.rule,
                "` per "@,
                match c.scope {
                    CountScope::File => "File"@,
                    CountScope::Function => "Function"@,
                },
                "; fires when count "@,
                compared(c.op),
                " "@,
                decimal_of(c.n as nat),
                "\n"@,
            ],
        ),
{
    assert(explanation(plain(r)) =~= title(r) + written(
        seq![
            "\ncounts `"@,
            c.rule,
            "` per "@,
            match c.scope {
                CountScope::File => "File"@,
                CountScope::Function => "Function"@,
            },
            "; fires when count "@,
            compared(c.op),
            " "@,
            decimal_of(c.n as nat),
            "\n"@,
        ],
    ));
}

/// Of a rule that composes others, the explanation says how, which ones, and by what key.
pub proof fn composing_rules_say_what_they_compose(r: RuleModel, c: ComposeModel)
    requires
        r.compose == Some(c),
    ensures
        explanation(plain(r)) == title(r) + written(
            seq![
                "\ncomposes ("@,
                match c.op {
                    SetOp::Intersection => "Intersection"@,
                    SetOp::Union => "Union"@,
                    SetOp::Difference => "Difference"@,
                },
                ") of "@,
            ],
        ) + bracketed(quoted(c.of)) + written(seq![" keyed by "@]) + bracketed(
            said(
                Seq::new(
                    c.key.len(),
                    |i: int|
                        match c.key[i] {
                            KeyPart::File => "File"@,
                            KeyPart::Function => "Function"@,
                        },
                ),
            ),
        ) + written(seq!["\n"@]),
{
    let names = Seq::new(
        c.key.len(),
        |i: int|
            match c.key[i] {
                KeyPart::File => "File"@,
                KeyPart::Function => "Function"@,
            },
    );
    assert(names =~= c.key.map_values(|p: KeyPart| key_part_name(p)));
    assert(explanation(plain(r)) =~= title(r) + written(
        seq![
            "\ncomposes ("@,
            match c.op {
                SetOp::Intersection => "Intersection"@,
                SetOp::Union => "Union"@,
                SetOp::Difference => "Difference"@,
            },
            ") of "@,
        ],
    ) + bracketed(quoted(c.of)) + written(seq![" keyed by "@]) + bracketed(said(names)) + written(
        seq!["\n"@],
    ));
}

/// Of a rule with a sequence, the explanation says how many steps it has and whether it keeps
/// to a scope, and then tells the steps.
pub proof fn sequence_rules_tell_their_steps(r: RuleModel, s: SequenceModel)
    requires
        r.compose is None,
        r.count is None,
        r.sequence == Some(s),
    ensures
        explanation(plain(r)) == title(r) + written(
            seq![
                "\nmatches a sequence of "@,
                decimal_of(s.steps.len()),
                " step(s)"@,
                if s.within_scope {
                    " (anchored within a scope)"@
                } else {
                    ""@
                },
                ":\n"@,
            ],
        ) + numbered(s.steps),
{
    assert(explanation(plain(r)) =~= title(r) + written(
        seq![
            "\nmatches a sequence of "@,
            decimal_of(s.steps.len()),
            " step(s)"@,
            if s.within_scope {
                " (anchored within a scope)"@
            } else {
                ""@
            },
            ":\n"@,
        ],
    ) + numbered(s.steps));
}

/// Of a rule with a single pattern, the explanation tells its predicates, or that any token
/// matches.
pub proof fn pattern_rules_tell_their_predicates(r: RuleModel)
    requires
        r.compose is None,
        r.count is None,
        r.sequence is None,
    ensures
        explanation(plain(r)) == title(r) + written(seq!["\nmatches a token pattern:\n"@]) + (
        if r.preds.len() == 0 {
            written(seq!["  (any token)\n"@])
        } else {
            itemized(r.preds)
        }),
{
    assert(written(seq!["  (any token)\n"@]) =~= say("  (any token)\n"@));
    assert(explanation(plain(r)) =~= title(r) + written(seq!["\nmatches a token pattern:\n"@]) + (
    if r.preds.len() == 0 {
        written(seq!["  (any token)\n"@])
    } else {
        itemized(r.preds)
    }));
}

/// Steps, predicates and clauses stand one to a line, in order; steps are numbered from one.
pub proof fn lines_follow_each_other(
    steps: Seq<StepModel>,
    s: StepModel,
    ps: Seq<PredModel>,
    p: PredModel,
    label: Seq<char>,
    cs: Seq<ClauseModel>,
    c: ClauseModel,
)
    ensures
        numbered(Seq::empty()).len() == 0,
        itemized(Seq::empty()).len() == 0,
        clause_pieces(label, Seq::empty()).len() == 0,
        numbered(steps.push(s)) == numbered(steps) + written(
            seq!["  "@, decimal_of(steps.len() + 1), ". "@],
        ) + step_pieces(s) + written(seq!["\n"@]),
        itemized(ps.push(p)) == itemized(ps) + written(seq!["  - "@]) + pred_pieces(p) + written(
            seq!["\n"@],
        ),
        clause_pieces(label, cs.push(c)) == clause_pieces(label, cs) + written(seq![label])
            + preds_pieces(c.preds) + written(seq!["\n"@]),
{
    assert(steps.push(s).drop_last() =~= steps);
    assert(ps.push(p).drop_last() =~= ps);
    assert(cs.push(c).drop_last() =~= cs);
    assert(numbered(steps.push(s)) =~= numbered(steps) + written(
        seq!["  "@, decimal_of(steps.len() + 1), ". "@],
    ) + step_pieces(s) + written(seq!["\n"@]));
    assert(itemized(ps.push(p)) =~= itemized(ps) + written(seq!["  - "@]) + pred_pieces(p) + written(
        seq!["\n"@],
    ));
    assert(clause_pieces(label, cs.push(c)) =~= clause_pieces(label, cs) + written(seq![label])
        + preds_pieces(c.preds) + written(seq!["\n"@]));
}

/// The clauses on the enclosing block follow the body, those on what it contains, does not
/// contain and is followed by, each under their own word.
pub proof fn scope_clauses_are_told(r: RuleModel, w: WhereModel)
    ensures
        explanation(RuleModel { where_scope: Some(w), ..plain(r) }) == explanation(plain(r))
            + written(seq!["where_scope (enclosing block):\n"@]) + clause_pieces(
            "  - contains: "@,
            w.contains,
        ) + clause_pieces("  - not_contains: "@, w.not_contains) + clause_pieces(
            "  - followed_by: "@,
            w.followed_by,
        ),
{
    assert(explanation(RuleModel { where_scope: Some(w), ..plain(r) }) =~= explanation(plain(r))
        + written(seq!["where_scope (enclosing block):\n"@]) + clause_pieces(
        "  - contains: "@,
        w.contains,
    ) + clause_pieces("  - not_contains: "@, w.not_contains) + clause_pieces(
        "  - followed_by: "@,
        w.followed_by,
    ));
}

/// The exemptions follow what a rule looks at: that there are globs, the rule of the waiver
/// and the quoted topic of the decision, as far as there are any, one to a line.
pub proof fn exemptions_are_told(r: RuleModel, u: UnlessModel)
    ensures
        ({
            let globs = if u.path_matches is Some {
                written(seq!["  - path.matches: <globs>\n"@])
            } else {
                Seq::empty()
            };
            let waiver = if u.waiver_rule is Some {
                written(seq!["  - waiver.exists: rule="@, u.waiver_rule->0, "\n"@])
            } else {
                Seq::empty()
            };
            let topic = if u.adr_topic is Some {
                written(seq!["  - adr.exists: topic="@, debug_text(u.adr_topic->0), "\n"@])
            } else {
                Seq::empty()
            };
            explanation(RuleModel { unless: Some(u), message: None, ..r }) == explanation(
                RuleModel { unless: None, message: None, ..r },
            ) + written(seq!["unless:\n"@]) + globs + waiver + topic
        }),
{
    let globs = if u.path_matches is Some {
        written(seq!["  - path.matches: <globs>\n"@])
    } else {
        Seq::empty()
    };
    let waiver = if u.waiver_rule is Some {
        written(seq!["  - waiver.exists: rule="@, u.waiver_rule->0, "\n"@])
    } else {
        Seq::empty()
    };
    let topic = if u.adr_topic is Some {
        written(seq!["  - adr.exists: topic="@, debug_text(u.adr_topic->0), "\n"@])
    } else {
        Seq::empty()
    };
    assert(explanation(RuleModel { unless: Some(u), message: None, ..r }) =~= explanation(
        RuleModel { unless: None, message: None, ..r },
    ) + written(seq!["unless:\n"@]) + globs + waiver + topic);
}

/// A predicate shows what it tests, the attribute, and what it tests it against.
pub proof fn predicates_show_what_they_test(
    attr: Seq<char>,
    x: Seq<char>,
    xs: Seq<Seq<char>>,
    op: CmpOp,
    n: Number,
)
    ensures
        pred_pieces(PredModel::Eq { attr, value: x }) == written(
            seq!["Eq { attr: "@, debug_text(attr), ", value: "@, debug_text(x), " }"@],
        ),
        pred_pieces(PredModel::AnyOf { attr, values: xs }) == written(
            seq!["AnyOf { attr: "@, debug_text(attr), ", values: "@],
        ) + bracketed(quoted(xs)) + written(seq![" }"@]),
        pred_pieces(PredModel::Regex { attr, re: x }) == written(
            seq!["Regex { attr: "@, debug_text(attr), ", re: Regex("@, debug_text(x), ") }"@],
        ),
        pred_pieces(PredModel::NotRegex { attr, re: x }) == written(
            seq!["NotRegex { attr: "@, debug_text(attr), ", re: Regex("@, debug_text(x), ") }"@],
        ),
        pred_pieces(PredModel::EqRef { attr, var: x }) == written(
            seq!["EqRef { attr: "@, debug_text(attr), ", var: "@, debug_text(x), " }"@],
        ),
        pred_pieces(PredModel::NeRef { attr, var: x }) == written(
            seq!["NeRef { attr: "@, debug_text(attr), ", var: "@, debug_text(x), " }"@],
        ),
        pred_pieces(PredModel::Cmp { attr, op, n }) == written(
            seq![
                "Cmp { attr: "@,
                debug_text(attr),
                ", op: "@,
                match op {
                    CmpOp::Gt => "Gt"@,
                    CmpOp::Lt => "Lt"@,
                    CmpOp::Ge => "Ge"@,
                    CmpOp::Le => "Le"@,
                },
                ", n: "@,
            ],
        ).push(PieceModel::Num(n)) + written(seq![" }"@]),
{
    assert(pred_pieces(PredModel::Eq { attr, value: x }) =~= written(
        seq!["Eq { attr: "@, debug_text(attr), ", value: "@, debug_text(x), " }"@],
    ));
    assert(pred_pieces(PredModel::AnyOf { attr, values: xs }) =~= written(
        seq!["AnyOf { attr: "@, debug_text(attr), ", values: "@],
    ) + bracketed(quoted(xs)) + written(seq![" }"@]));
    assert(pred_pieces(PredModel::Regex { attr, re: x }) =~= written(
        seq!["Regex { attr: "@, debug_text(attr), ", re: Regex("@, debug_text(x), ") }"@],
    ));
    assert(pred_pieces(PredModel::NotRegex { attr, re: x }) =~= written(
        seq!["NotRegex { attr: "@, debug_text(attr), ", re: Regex("@, debug_text(x), ") }"@],
    ));
    assert(pred_pieces(PredModel::EqRef { attr, var: x }) =~= written(
        seq!["EqRef { attr: "@, debug_text(attr), ", var: "@, debug_text(x), " }"@],
    ));
    assert(pred_pieces(PredModel::NeRef { attr, var: x }) =~= written(
        seq!["NeRef { attr: "@, debug_text(attr), ", var: "@, debug_text(x), " }"@],
    ));
    assert(pred_pieces(PredModel::Cmp { attr, op, n }) =~= written(
        seq![
            "Cmp { attr: "@,
            debug_text(attr),
            ", op: "@,
            match op {
                CmpOp::Gt => "Gt"@,
                CmpOp::Lt => "Lt"@,
                CmpOp::Ge => "Ge"@,
                CmpOp::Le => "Le"@,
            },
            ", n: "@,
        ],
    ).push(PieceModel::Num(n)) + written(seq![" }"@]));
}

/// A step shows what it matches, how often, whether it is negated, and each capture as the
/// pair that it holds.
pub proof fn steps_show_what_they_hold(s: StepModel)
    ensures
        step_pieces(s) == written(seq!["CompiledStep { matcher: "@]) + matcher_pieces(s.matcher)
            + written(
            seq![
                ", quant: "@,
                match s.quant {
                    Quant::One => "One"@,
                    Quant::Optional => "Optional"@,
                    Quant::ZeroOrMore => "ZeroOrMore"@,
                },
                ", negate: "@,
                if s.negate {
                    "true"@
                } else {
                    "false"@
                },
                ", bind: "@,
            ],
        ) + bracketed(
            Seq::new(
                s.bind.len(),
                |i: int|
                    written(
                        seq!["("@, debug_text(s.bind[i].0), ", "@, debug_text(s.bind[i].1), ")"@],
                    ),
            ),
        ) + written(seq![" }"@]),
{
    let pairs = Seq::new(
        s.bind.len(),
        |i: int|
            written(seq!["("@, debug_text(s.bind[i].0), ", "@, debug_text(s.bind[i].1), ")"@]),
    );
    let shown = bind_pieces(s.bind);
    assert forall|i: int| 0 <= i < pairs.len() implies pairs[i] == shown[i] by {
        assert(pairs[i] =~= shown[i]);
    }
    assert(pairs =~= shown);
    assert(step_pieces(s) =~= written(seq!["CompiledStep { matcher: "@]) + matcher_pieces(s.matcher)
        + written(
        seq![
            ", quant: "@,
            match s.quant {
                Quant::One => "One"@,
                Quant::Optional => "Optional"@,
                Quant::ZeroOrMore => "ZeroOrMore"@,
            },
            ", negate: "@,
            if s.negate {
                "true"@
            } else {
                "false"@
            },
            ", bind: "@,
        ],
    ) + bracketed(pairs) + written(seq![" }"@]));
}

/// What a step matches shows the predicates of a token, the kind and predicates of an event,
/// or the alternatives in order; lists of predicates and quoted texts show each item in order.
pub proof fn matchers_show_what_they_match(
    kind: EventKind,
    ps: Seq<PredModel>,
    alts: Seq<MatcherModel>,
    xs: Seq<Seq<char>>,
)
    ensures
        matcher_pieces(MatcherModel::Pat { kind: None, preds: ps }) == written(seq!["Pat("@])
            + preds_pieces(ps) + written(seq![")"@]),
        matcher_pieces(MatcherModel::Pat { kind: Some(kind), preds: ps }) == written(
            seq!["Event { kind: Some("@, kind_name(kind), "), preds: "@],
        ) + preds_pieces(ps) + written(seq![" }"@]),
        matcher_pieces(MatcherModel::Alt(alts)) == written(seq!["Alt("@]) + bracketed(
            Seq::new(alts.len(), |i: int| matcher_pieces(alts[i])),
        ) + written(seq![")"@]),
        preds_pieces(ps) == bracketed(Seq::new(ps.len(), |i: int| pred_pieces(ps[i]))),
        quoted(xs) == Seq::new(xs.len(), |i: int| written(seq![debug_text(xs[i])])),
        said(xs) == Seq::new(xs.len(), |i: int| written(seq![xs[i]])),
{
    assert(matcher_pieces(MatcherModel::Pat { kind: None, preds: ps }) =~= written(seq!["Pat("@])
        + preds_pieces(ps) + written(seq![")"@]));
    assert(matcher_pieces(MatcherModel::Pat { kind: Some(kind), preds: ps }) =~= written(
        seq!["Event { kind: Some("@, kind_name(kind), "), preds: "@],
    ) + preds_pieces(ps) + written(seq![" }"@]));
    let shown = Seq::new(alts.len(), |i: int| matcher_pieces(alts[i]));
    assert(alt_pieces(alts) =~= shown);
    assert(matcher_pieces(MatcherModel::Alt(alts)) =~= written(seq!["Alt("@]) + bracketed(shown)
        + written(seq![")"@]));
    assert(ps.map_values(|p: PredModel| pred_pieces(p)) =~= Seq::new(
        ps.len(),
        |i: int| pred_pieces(ps[i]),
    ));
    assert forall|x: Seq<char>| #[trigger] say(x) == written(seq![x]) by {
        assert(say(x) =~= written(seq![x]));
    }
    assert(quoted(xs) =~= Seq::new(xs.len(), |i: int| written(seq![debug_text(xs[i])])));
    assert(said(xs) =~= Seq::new(xs.len(), |i: int| written(seq![xs[i]])));
}

} // verus!
