//! How a rule compiles, in words.

use vstd::prelude::*;

use crate::event::{kind_name};
use crate::number::Number;
use crate::outside::{debug_string, debug_text};
use crate::rules::{
    pair_texts,
    AttrPred,
    ClauseMatcher,
    ClauseModel,
    CmpOp,
    CompiledCompose,
    CompiledCount,
    CompiledRule,
    CompiledSequence,
    CompiledStep,
    CompiledUnless,
    CompiledWhereScope,
    ComposeModel,
    CountModel,
    CountOp,
    CountScope,
    KeyPart,
    MatcherModel,
    PredModel,
    Quant,
    RuleModel,
    SequenceModel,
    SetOp,
    StepMatcher,
    StepModel,
    UnlessModel,
    WhereModel,
};
use crate::schema::{severity_label, BindsModel};
use crate::text::{decimal, decimal_of, same, texts, views};
use crate::token::Language;
use crate::value::bool_text;

verus! {

/// A piece of an explanation: text, or a number in double precision, which is shown
/// by whoever prints it.
#[derive(Debug)]
pub enum Piece {
    Text(String),
    Num(Number),
}

/// The model of [`Piece`].
pub enum PieceModel {
    Text(Seq<char>),
    Num(Number),
}

impl View for Piece {
    type V = PieceModel;

    open spec fn view(&self) -> PieceModel {
        match *self {
            Piece::Text(s) => PieceModel::Text(s@),
            Piece::Num(n) => PieceModel::Num(n),
        }
    }
}

/// One piece of text.
pub open spec fn say(s: Seq<char>) -> Seq<PieceModel> {
    seq![PieceModel::Text(s)]
}

/// Adds a piece of text.
fn put_text(out: &mut Vec<Piece>, s: &str)
    ensures
        views(final(out)@) == views(old(out)@) + say(s@),
{
    let ghost before = out@;
    out.push(Piece::Text(s.to_owned()));
    assert(views(out@) =~= views(before) + say(s@));
}

fn put_quoted(out: &mut Vec<Piece>, s: &str)
    ensures
        views(final(out)@) == views(old(out)@) + say(debug_text(s@)),
{
    let d = debug_string(s);
    put_text(out, d.as_str());
}

// ---------------------------------------------------------------------------
// Names
// ---------------------------------------------------------------------------

/// The name of a comparison.
pub open spec fn cmp_name(op: CmpOp) -> Seq<char> {
    match op {
        CmpOp::Gt => "Gt"@,
        CmpOp::Lt => "Lt"@,
        CmpOp::Ge => "Ge"@,
        CmpOp::Le => "Le"@,
    }
}

/// The name of a threshold comparison.
pub open spec fn count_op_name(op: CountOp) -> Seq<char> {
    match op {
        CountOp::Gt => "Gt"@,
        CountOp::Lt => "Lt"@,
        CountOp::Ge => "Ge"@,
        CountOp::Le => "Le"@,
        CountOp::Eq => "Eq"@,
    }
}

/// The name of a quantifier.
pub open spec fn quant_name(q: Quant) -> Seq<char> {
    match q {
        Quant::One => "One"@,
        Quant::Optional => "Optional"@,
        Quant::ZeroOrMore => "ZeroOrMore"@,
    }
}

/// The name of a set operation.
pub open spec fn set_op_name(op: SetOp) -> Seq<char> {
    match op {
        SetOp::Intersection => "Intersection"@,
        SetOp::Union => "Union"@,
        SetOp::Difference => "Difference"@,
    }
}

/// The name of a key component.
pub open spec fn key_part_name(p: KeyPart) -> Seq<char> {
    match p {
        KeyPart::File => "File"@,
        KeyPart::Function => "Function"@,
    }
}

/// The name of a scope.
pub open spec fn count_scope_name(s: CountScope) -> Seq<char> {
    match s {
        CountScope::File => "File"@,
        CountScope::Function => "Function"@,
    }
}

/// The capitalized name of a language.
pub open spec fn language_label(l: Language) -> Seq<char> {
    match l {
        Language::Typescript => "Typescript"@,
        Language::Javascript => "Javascript"@,
        Language::Go => "Go"@,
        Language::Python => "Python"@,
        Language::Rust => "Rust"@,
    }
}

fn show_cmp(op: CmpOp) -> (r: &'static str)
    ensures
        r@ == cmp_name(op),
{
    match op {
        CmpOp::Gt => "Gt",
        CmpOp::Lt => "Lt",
        CmpOp::Ge => "Ge",
        CmpOp::Le => "Le",
    }
}

fn show_count_op(op: CountOp) -> (r: &'static str)
    ensures
        r@ == count_op_name(op),
{
    match op {
        CountOp::Gt => "Gt",
        CountOp::Lt => "Lt",
        CountOp::Ge => "Ge",
        CountOp::Le => "Le",
        CountOp::Eq => "Eq",
    }
}

fn show_quant(q: Quant) -> (r: &'static str)
    ensures
        r@ == quant_name(q),
{
    match q {
        Quant::One => "One",
        Quant::Optional => "Optional",
        Quant::ZeroOrMore => "ZeroOrMore",
    }
}

fn show_set_op(op: SetOp) -> (r: &'static str)
    ensures
        r@ == set_op_name(op),
{
    match op {
        SetOp::Intersection => "Intersection",
        SetOp::Union => "Union",
        SetOp::Difference => "Difference",
    }
}

fn show_key_part(p: KeyPart) -> (r: &'static str)
    ensures
        r@ == key_part_name(p),
{
    match p {
        KeyPart::File => "File",
        KeyPart::Function => "Function",
    }
}

fn show_count_scope(s: CountScope) -> (r: &'static str)
    ensures
        r@ == count_scope_name(s),
{
    match s {
        CountScope::File => "File",
        CountScope::Function => "Function",
    }
}

fn show_language(l: Language) -> (r: &'static str)
    ensures
        r@ == language_label(l),
{
    match l {
        Language::Typescript => "Typescript",
        Language::Javascript => "Javascript",
        Language::Go => "Go",
        Language::Python => "Python",
        Language::Rust => "Rust",
    }
}

// ---------------------------------------------------------------------------
// Lists
// ---------------------------------------------------------------------------

/// Several runs of pieces with commas between them.
pub open spec fn with_commas(items: Seq<Seq<PieceModel>>) -> Seq<PieceModel>
    decreases items.len(),
{
    if items.len() == 0 {
        Seq::empty()
    } else if items.len() == 1 {
        items[0]
    } else {
        with_commas(items.drop_last()) + say(", "@) + items.last()
    }
}

/// A list in square brackets.
pub open spec fn bracketed(items: Seq<Seq<PieceModel>>) -> Seq<PieceModel> {
    say("["@) + with_commas(items) + say("]"@)
}

proof fn lemma_next(items: Seq<Seq<PieceModel>>, i: int)
    requires
        0 <= i < items.len(),
    ensures
        with_commas(items.take(i + 1)) == (if i == 0 {
            items[0]
        } else {
            with_commas(items.take(i)) + say(", "@) + items[i]
        }),
        with_commas(items.take(0)) == Seq::<PieceModel>::empty(),
{
    assert(items.take(i + 1).drop_last() =~= items.take(i));
    assert(items.take(i + 1).last() == items[i]);
}

// ---------------------------------------------------------------------------
// Predicates and steps
// ---------------------------------------------------------------------------

/// Quoted texts as runs of pieces.
pub open spec fn quoted(list: Seq<Seq<char>>) -> Seq<Seq<PieceModel>> {
    list.map_values(|s: Seq<char>| say(debug_text(s)))
}

/// A predicate.
pub open spec fn pred_pieces(p: PredModel) -> Seq<PieceModel> {
    match p {
        PredModel::Eq { attr, value } => say("Eq { attr: "@) + say(debug_text(attr)) + say(
            ", value: "@,
        ) + say(debug_text(value)) + say(" }"@),
        PredModel::AnyOf { attr, values } => say("AnyOf { attr: "@) + say(debug_text(attr)) + say(
            ", values: "@,
        ) + bracketed(quoted(values)) + say(" }"@),
        PredModel::Regex { attr, re } => say("Regex { attr: "@) + say(debug_text(attr)) + say(
            ", re: Regex("@,
        ) + say(debug_text(re)) + say(") }"@),
        PredModel::NotRegex { attr, re } => say("NotRegex { attr: "@) + say(debug_text(attr)) + say(
            ", re: Regex("@,
        ) + say(debug_text(re)) + say(") }"@),
        PredModel::Cmp { attr, op, n } => say("Cmp { attr: "@) + say(debug_text(attr)) + say(
            ", op: "@,
        ) + say(cmp_name(op)) + say(", n: "@) + seq![PieceModel::Num(n)] + say(" }"@),
        PredModel::EqRef { attr, var } => say("EqRef { attr: "@) + say(debug_text(attr)) + say(
            ", var: "@,
        ) + say(debug_text(var)) + say(" }"@),
        PredModel::NeRef { attr, var } => say("NeRef { attr: "@) + say(debug_text(attr)) + say(
            ", var: "@,
        ) + say(debug_text(var)) + say(" }"@),
    }
}

/// A list of predicates.
pub open spec fn preds_pieces(ps: Seq<PredModel>) -> Seq<PieceModel> {
    bracketed(ps.map_values(|p: PredModel| pred_pieces(p)))
}

/// What a step matches.
pub open spec fn matcher_pieces(m: MatcherModel) -> Seq<PieceModel>
    decreases m,
{
    match m {
        MatcherModel::Pat { kind, preds } => match kind {
            None => say("Pat("@) + preds_pieces(preds) + say(")"@),
            Some(k) => say("Event { kind: Some("@) + say(kind_name(k)) + say("), preds: "@)
                + preds_pieces(preds) + say(" }"@),
        },
        MatcherModel::Alt(alts) => say("Alt("@) + bracketed(alt_pieces(alts)) + say(")"@),
    }
}

/// What several alternatives match.
pub open spec fn alt_pieces(alts: Seq<MatcherModel>) -> Seq<Seq<PieceModel>>
    decreases alts,
{
    Seq::new(
        alts.len(),
        |i: int|
            if 0 <= i < alts.len() {
                matcher_pieces(alts[i])
            } else {
                Seq::empty()
            },
    )
}

/// The captures of a step.
pub open spec fn bind_pieces(b: BindsModel) -> Seq<Seq<PieceModel>> {
    b.map_values(
        |p: (Seq<char>, Seq<char>)|
            say("("@) + say(debug_text(p.0)) + say(", "@) + say(debug_text(p.1)) + say(")"@),
    )
}

/// A step.
pub open spec fn step_pieces(s: StepModel) -> Seq<PieceModel> {
    say("CompiledStep { matcher: "@) + matcher_pieces(s.matcher) + say(", quant: "@) + say(
        quant_name(s.quant),
    ) + say(", negate: "@) + say(bool_text(s.negate)) + say(", bind: "@) + bracketed(
        bind_pieces(s.bind),
    ) + say(" }"@)
}

fn put_texts(out: &mut Vec<Piece>, list: &Vec<String>)
    ensures
        views(final(out)@) == views(old(out)@) + bracketed(quoted(texts(list@))),
{
    let ghost first = views(out@);
    let ghost items = quoted(texts(list@));
    put_text(out, "[");
    let ghost head = views(out@);
    let mut i: usize = 0;
    assert(items.take(0) =~= Seq::<Seq<PieceModel>>::empty());
    assert(head + Seq::<PieceModel>::empty() =~= head);
    while i < list.len()
        invariant
            i <= list@.len(),
            items == quoted(texts(list@)),
            views(out@) == head + with_commas(items.take(i as int)),
        decreases list@.len() - i,
    {
        proof {
            lemma_next(items, i as int);
            assert(items[i as int] == say(debug_text(list@[i as int]@)));
        }
        let ghost done = with_commas(items.take(i as int));
        if i > 0 {
            put_text(out, ", ");
        }
        put_quoted(out, list[i].as_str());
        proof {
            if i == 0 {
                assert(head + done + items[0] =~= head + items[0]);
            } else {
                assert(head + done + say(", "@) + items[i as int] =~= head + (done + say(", "@)
                    + items[i as int]));
            }
        }
        i += 1;
    }
    assert(items.take(i as int) =~= items);
    put_text(out, "]");
    assert(views(out@) =~= first + bracketed(items));
}

fn put_pred(out: &mut Vec<Piece>, p: &AttrPred)
    ensures
        views(final(out)@) == views(old(out)@) + pred_pieces(p@),
{
    let ghost first = views(out@);
    match p {
        AttrPred::Eq { attr, value } => {
            put_text(out, "Eq { attr: ");
            put_quoted(out, attr.as_str());
            put_text(out, ", value: ");
            put_quoted(out, value.as_str());
            put_text(out, " }");
        },
        AttrPred::AnyOf { attr, values } => {
            put_text(out, "AnyOf { attr: ");
            put_quoted(out, attr.as_str());
            put_text(out, ", values: ");
            put_texts(out, values);
            put_text(out, " }");
        },
        AttrPred::Regex { attr, re } => {
            put_text(out, "Regex { attr: ");
            put_quoted(out, attr.as_str());
            put_text(out, ", re: Regex(");
            put_quoted(out, re.as_str());
            put_text(out, ") }");
        },
        AttrPred::NotRegex { attr, re } => {
            put_text(out, "NotRegex { attr: ");
            put_quoted(out, attr.as_str());
            put_text(out, ", re: Regex(");
            put_quoted(out, re.as_str());
            put_text(out, ") }");
        },
        AttrPred::Cmp { attr, op, n } => {
            put_text(out, "Cmp { attr: ");
            put_quoted(out, attr.as_str());
            put_text(out, ", op: ");
            put_text(out, show_cmp(*op));
            put_text(out, ", n: ");
            let ghost before = out@;
            out.push(Piece::Num(*n));
            assert(views(out@) =~= views(before) + seq![PieceModel::Num(*n)]);
            put_text(out, " }");
        },
        AttrPred::EqRef { attr, var } => {
            put_text(out, "EqRef { attr: ");
            put_quoted(out, attr.as_str());
            put_text(out, ", var: ");
            put_quoted(out, var.as_str());
            put_text(out, " }");
        },
        AttrPred::NeRef { attr, var } => {
            put_text(out, "NeRef { attr: ");
            put_quoted(out, attr.as_str());
            put_text(out, ", var: ");
            put_quoted(out, var.as_str());
            put_text(out, " }");
        },
    }
    assert(views(out@) =~= first + pred_pieces(p@));
}

fn put_preds(out: &mut Vec<Piece>, ps: &Vec<AttrPred>)
    ensures
        views(final(out)@) == views(old(out)@) + preds_pieces(views(ps@)),
{
    let ghost first = views(out@);
    let ghost items = views(ps@).map_values(|p: PredModel| pred_pieces(p));
    put_text(out, "[");
    let ghost head = views(out@);
    let mut i: usize = 0;
    assert(items.take(0) =~= Seq::<Seq<PieceModel>>::empty());
    assert(head + Seq::<PieceModel>::empty() =~= head);
    while i < ps.len()
        invariant
            i <= ps@.len(),
            items == views(ps@).map_values(|p: PredModel| pred_pieces(p)),
            views(out@) == head + with_commas(items.take(i as int)),
        decreases ps@.len() - i,
    {
        proof {
            lemma_next(items, i as int);
            assert(items[i as int] == pred_pieces(ps@[i as int]@));
        }
        let ghost done = with_commas(items.take(i as int));
        if i > 0 {
            put_text(out, ", ");
        }
        put_pred(out, &ps[i]);
        proof {
            if i == 0 {
                assert(head + done + items[0] =~= head + items[0]);
            } else {
                assert(head + done + say(", "@) + items[i as int] =~= head + (done + say(", "@)
                    + items[i as int]));
            }
        }
        i += 1;
    }
    assert(items.take(i as int) =~= items);
    put_text(out, "]");
    assert(views(out@) =~= first + preds_pieces(views(ps@)));
}

fn put_matcher(out: &mut Vec<Piece>, m: &StepMatcher)
    ensures
        views(final(out)@) == views(old(out)@) + matcher_pieces(m@),
    decreases m,
{
    let ghost first = views(out@);
    match m {
        StepMatcher::Pat { kind, preds } => {
            match kind {
                None => {
                    put_text(out, "Pat(");
                    put_preds(out, preds);
                    put_text(out, ")");
                },
                Some(k) => {
                    put_text(out, "Event { kind: Some(");
                    put_text(out, k.name());
                    put_text(out, "), preds: ");
                    put_preds(out, preds);
                    put_text(out, " }");
                },
            }
            assert(views(out@) =~= first + matcher_pieces(m@));
        },
        StepMatcher::Alt(alts) => {
            let ghost models = m@->Alt_0;
            let ghost items = alt_pieces(models);
            put_text(out, "Alt(");
            put_text(out, "[");
            let ghost head = views(out@);
            let mut i: usize = 0;
            assert(items.take(0) =~= Seq::<Seq<PieceModel>>::empty());
            assert(head + Seq::<PieceModel>::empty() =~= head);
            while i < alts.len()
                invariant
                    i <= alts@.len(),
                    *m == StepMatcher::Alt(*alts),
                    models == m@->Alt_0,
                    models.len() == alts@.len(),
                    items == alt_pieces(models),
                    views(out@) == head + with_commas(items.take(i as int)),
                decreases alts@.len() - i,
            {
                assert(decreases_to!(m => m->Alt_0));
                proof {
                    lemma_next(items, i as int);
                    assert(models[i as int] == alts@[i as int]@);
                    assert(items[i as int] == matcher_pieces(alts@[i as int]@));
                }
                let ghost done = with_commas(items.take(i as int));
                if i > 0 {
                    put_text(out, ", ");
                }
                put_matcher(out, &alts[i]);
                proof {
                    if i == 0 {
                        assert(head + done + items[0] =~= head + items[0]);
                    } else {
                        assert(head + done + say(", "@) + items[i as int] =~= head + (done + say(
                            ", "@,
                        ) + items[i as int]));
                    }
                }
                i += 1;
            }
            assert(items.take(i as int) =~= items);
            put_text(out, "]");
            put_text(out, ")");
            assert(views(out@) =~= first + matcher_pieces(m@));
        },
    }
}

fn put_binds(out: &mut Vec<Piece>, list: &Vec<(String, String)>)
    ensures
        views(final(out)@) == views(old(out)@) + bracketed(bind_pieces(pair_texts(list@))),
{
    let ghost first = views(out@);
    let ghost items = bind_pieces(pair_texts(list@));
    put_text(out, "[");
    let ghost head = views(out@);
    let mut i: usize = 0;
    assert(items.take(0) =~= Seq::<Seq<PieceModel>>::empty());
    assert(head + Seq::<PieceModel>::empty() =~= head);
    while i < list.len()
        invariant
            i <= list@.len(),
            items == bind_pieces(pair_texts(list@)),
            views(out@) == head + with_commas(items.take(i as int)),
        decreases list@.len() - i,
    {
        proof {
            lemma_next(items, i as int);
            assert(pair_texts(list@)[i as int] == (list@[i as int].0@, list@[i as int].1@));
        }
        let ghost done = with_commas(items.take(i as int));
        if i > 0 {
            put_text(out, ", ");
        }
        let ghost before = views(out@);
        put_text(out, "(");
        put_quoted(out, list[i].0.as_str());
        put_text(out, ", ");
        put_quoted(out, list[i].1.as_str());
        put_text(out, ")");
        proof {
            assert(views(out@) =~= before + items[i as int]);
            if i == 0 {
                assert(head + done + items[0] =~= head + items[0]);
            } else {
                assert(head + done + say(", "@) + items[i as int] =~= head + (done + say(", "@)
                    + items[i as int]));
            }
        }
        i += 1;
    }
    assert(items.take(i as int) =~= items);
    put_text(out, "]");
    assert(views(out@) =~= first + bracketed(items));
}

fn put_step(out: &mut Vec<Piece>, s: &CompiledStep)
    ensures
        views(final(out)@) == views(old(out)@) + step_pieces(s@),
{
    let ghost first = views(out@);
    put_text(out, "CompiledStep { matcher: ");
    put_matcher(out, &s.matcher);
    put_text(out, ", quant: ");
    put_text(out, show_quant(s.quant));
    put_text(out, ", negate: ");
    let negate = crate::value::bool_string(s.negate);
    put_text(out, negate.as_str());
    put_text(out, ", bind: ");
    put_binds(out, &s.bind);
    put_text(out, " }");
    assert(views(out@) =~= first + step_pieces(s@));
}

// ---------------------------------------------------------------------------
// Rules
// ---------------------------------------------------------------------------

/// A text between two others, where there is one.
pub open spec fn opt_said(before: Seq<char>, s: Option<Seq<char>>, after: Seq<char>) -> Seq<PieceModel> {
    match s {
        Some(t) => say(before) + say(t) + say(after),
        None => Seq::empty(),
    }
}

/// Names as runs of pieces.
pub open spec fn said(names: Seq<Seq<char>>) -> Seq<Seq<PieceModel>> {
    names.map_values(|s: Seq<char>| say(s))
}

/// The languages that a rule is limited to.
pub open spec fn languages_pieces(langs: Option<Seq<Language>>) -> Seq<PieceModel> {
    match langs {
        Some(v) => say("languages: "@) + bracketed(
            said(v.map_values(|l: Language| language_label(l))),
        ) + say("\n"@),
        None => Seq::empty(),
    }
}

/// A set operation.
pub open spec fn compose_pieces(c: ComposeModel) -> Seq<PieceModel> {
    say("\ncomposes ("@) + say(set_op_name(c.op)) + say(") of "@) + bracketed(quoted(c.of)) + say(
        " keyed by "@,
    ) + bracketed(said(c.key.map_values(|p: KeyPart| key_part_name(p)))) + say("\n"@)
}

/// A threshold.
pub open spec fn count_pieces(c: CountModel) -> Seq<PieceModel> {
    say("\ncounts `"@) + say(c.rule) + say("` per "@) + say(count_scope_name(c.scope)) + say(
        "; fires when count "@,
    ) + say(count_op_name(c.op)) + say(" "@) + say(decimal_of(c.n as nat)) + say("\n"@)
}

/// The numbered steps of a sequence.
pub open spec fn numbered(steps: Seq<StepModel>) -> Seq<PieceModel>
    decreases steps.len(),
{
    if steps.len() == 0 {
        Seq::empty()
    } else {
        numbered(steps.drop_last()) + say("  "@) + say(decimal_of(steps.len())) + say(". "@)
            + step_pieces(steps.last()) + say("\n"@)
    }
}

/// A sequence.
pub open spec fn sequence_pieces(s: SequenceModel) -> Seq<PieceModel> {
    say("\nmatches a sequence of "@) + say(decimal_of(s.steps.len())) + say(" step(s)"@) + say(
        if s.within_scope {
            " (anchored within a scope)"@
        } else {
            ""@
        },
    ) + say(":\n"@) + numbered(s.steps)
}

/// The predicates of a single pattern, one to a line.
pub open spec fn itemized(ps: Seq<PredModel>) -> Seq<PieceModel>
    decreases ps.len(),
{
    if ps.len() == 0 {
        Seq::empty()
    } else {
        itemized(ps.drop_last()) + say("  - "@) + pred_pieces(ps.last()) + say("\n"@)
    }
}

/// A single pattern.
pub open spec fn match_pieces(ps: Seq<PredModel>) -> Seq<PieceModel> {
    say("\nmatches a token pattern:\n"@) + (if ps.len() == 0 {
        say("  (any token)\n"@)
    } else {
        itemized(ps)
    })
}

/// The body of a rule.
pub open spec fn body_pieces(r: RuleModel) -> Seq<PieceModel> {
    match r.compose {
        Some(c) => compose_pieces(c),
        None => match r.count {
            Some(c) => count_pieces(c),
            None => match r.sequence {
                Some(s) => sequence_pieces(s),
                None => match_pieces(r.preds),
            },
        },
    }
}

/// The scope clauses of one kind, one to a line.
pub open spec fn clause_pieces(label: Seq<char>, cs: Seq<ClauseModel>) -> Seq<PieceModel>
    decreases cs.len(),
{
    if cs.len() == 0 {
        Seq::empty()
    } else {
        clause_pieces(label, cs.drop_last()) + say(label) + preds_pieces(cs.last().preds) + say("\n"@)
    }
}

/// The scope clauses of a rule.
pub open spec fn where_pieces(w: Option<WhereModel>) -> Seq<PieceModel> {
    match w {
        Some(m) => say("where_scope (enclosing block):\n"@) + clause_pieces(
            "  - contains: "@,
            m.contains,
        ) + clause_pieces("  - not_contains: "@, m.not_contains) + clause_pieces(
            "  - followed_by: "@,
            m.followed_by,
        ),
        None => Seq::empty(),
    }
}

/// The exemptions of a rule.
pub open spec fn unless_pieces(u: Option<UnlessModel>) -> Seq<PieceModel> {
    match u {
        Some(m) => say("unless:\n"@) + (if m.path_matches is Some {
            say("  - path.matches: <globs>\n"@)
        } else {
            Seq::empty()
        }) + opt_said("  - waiver.exists: rule="@, m.waiver_rule, "\n"@) + opt_said(
            "  - adr.exists: topic="@,
            match m.adr_topic {
                Some(t) => Some(debug_text(t)),
                None => None,
            },
            "\n"@,
        ),
        None => Seq::empty(),
    }
}

/// The explanation of a rule.
pub open spec fn explanation(r: RuleModel) -> Seq<PieceModel> {
    say(r.id) + say(" ["@) + say(severity_label(r.severity)) + say("]\n"@) + opt_said(
        "\n"@,
        r.description,
        "\n"@,
    ) + languages_pieces(r.languages) + body_pieces(r) + where_pieces(r.where_scope) + unless_pieces(
        r.unless,
    ) + opt_said("\nremediation: "@, r.message, "\n"@)
}

fn put_opt(out: &mut Vec<Piece>, before: &str, s: &Option<String>, after: &str)
    ensures
        views(final(out)@) == views(old(out)@) + opt_said(
            before@,
            crate::text::opt_text(*s),
            after@,
        ),
{
    let ghost first = views(out@);
    if let Some(t) = s {
        put_text(out, before);
        put_text(out, t.as_str());
        put_text(out, after);
    }
    assert(views(out@) =~= first + opt_said(before@, crate::text::opt_text(*s), after@));
}

fn put_names(out: &mut Vec<Piece>, list: &Vec<&'static str>, names: Ghost<Seq<Seq<char>>>)
    requires
        list@.len() == names@.len(),
        forall|i: int| 0 <= i < names@.len() ==> (#[trigger] list@[i])@ == names@[i],
    ensures
        views(final(out)@) == views(old(out)@) + bracketed(said(names@)),
{
    let ghost first = views(out@);
    let ghost items = said(names@);
    put_text(out, "[");
    let ghost head = views(out@);
    let mut i: usize = 0;
    assert(items.take(0) =~= Seq::<Seq<PieceModel>>::empty());
    assert(head + Seq::<PieceModel>::empty() =~= head);
    while i < list.len()
        invariant
            i <= list@.len(),
            list@.len() == names@.len(),
            forall|i: int| 0 <= i < names@.len() ==> (#[trigger] list@[i])@ == names@[i],
            items == said(names@),
            views(out@) == head + with_commas(items.take(i as int)),
        decreases list@.len() - i,
    {
        proof {
            lemma_next(items, i as int);
            assert(list@[i as int]@ == names@[i as int]);
        }
        let ghost done = with_commas(items.take(i as int));
        if i > 0 {
            put_text(out, ", ");
        }
        put_text(out, list[i]);
        proof {
            if i == 0 {
                assert(head + done + items[0] =~= head + items[0]);
            } else {
                assert(head + done + say(", "@) + items[i as int] =~= head + (done + say(", "@)
                    + items[i as int]));
            }
        }
        i += 1;
    }
    assert(items.take(i as int) =~= items);
    put_text(out, "]");
    assert(views(out@) =~= first + bracketed(items));
}

fn put_languages(out: &mut Vec<Piece>, langs: &Option<Vec<Language>>)
    ensures
        views(final(out)@) == views(old(out)@) + languages_pieces(
            crate::schema::opt_items(*langs),
        ),
{
    let ghost first = views(out@);
    if let Some(v) = langs {
        let ghost labels = v@.map_values(|l: Language| language_label(l));
        let mut names: Vec<&'static str> = Vec::new();
        let mut i: usize = 0;
        while i < v.len()
            invariant
                i <= v@.len(),
                names@.len() == i,
                forall|k: int| 0 <= k < i ==> (#[trigger] names@[k])@ == language_label(v@[k]),
            decreases v@.len() - i,
        {
            names.push(show_language(v[i]));
            i += 1;
        }
        put_text(out, "languages: ");
        put_names(out, &names, Ghost(labels));
        put_text(out, "\n");
    }
    assert(views(out@) =~= first + languages_pieces(crate::schema::opt_items(*langs)));
}

fn put_compose(out: &mut Vec<Piece>, c: &CompiledCompose)
    ensures
        views(final(out)@) == views(old(out)@) + compose_pieces(c@),
{
    let ghost first = views(out@);
    let ghost labels = c.key@.map_values(|p: KeyPart| key_part_name(p));
    let mut names: Vec<&'static str> = Vec::new();
    let mut i: usize = 0;
    while i < c.key.len()
        invariant
            i <= c.key@.len(),
            names@.len() == i,
            forall|k: int| 0 <= k < i ==> (#[trigger] names@[k])@ == key_part_name(c.key@[k]),
        decreases c.key@.len() - i,
    {
        names.push(show_key_part(c.key[i]));
        i += 1;
    }
    put_text(out, "\ncomposes (");
    put_text(out, show_set_op(c.op));
    put_text(out, ") of ");
    put_texts(out, &c.of);
    put_text(out, " keyed by ");
    put_names(out, &names, Ghost(labels));
    put_text(out, "\n");
    assert(views(out@) =~= first + compose_pieces(c@));
}

fn put_count(out: &mut Vec<Piece>, c: &CompiledCount)
    ensures
        views(final(out)@) == views(old(out)@) + count_pieces(c@),
{
    let ghost first = views(out@);
    put_text(out, "\ncounts `");
    put_text(out, c.rule.as_str());
    put_text(out, "` per ");
    put_text(out, show_count_scope(c.scope));
    put_text(out, "; fires when count ");
    put_text(out, show_count_op(c.op));
    put_text(out, " ");
    let n = decimal(c.n as u128);
    put_text(out, n.as_str());
    put_text(out, "\n");
    assert(views(out@) =~= first + count_pieces(c@));
}

fn put_sequence(out: &mut Vec<Piece>, s: &CompiledSequence)
    ensures
        views(final(out)@) == views(old(out)@) + sequence_pieces(s@),
{
    let ghost first = views(out@);
    let ghost steps = views(s.steps@);
    put_text(out, "\nmatches a sequence of ");
    let n = decimal(s.steps.len() as u128);
    put_text(out, n.as_str());
    put_text(out, " step(s)");
    put_text(
        out,
        if s.within_scope {
            " (anchored within a scope)"
        } else {
            ""
        },
    );
    put_text(out, ":\n");
    let ghost head = views(out@);
    let mut i: usize = 0;
    assert(steps.take(0) =~= Seq::<StepModel>::empty());
    assert(head + Seq::<PieceModel>::empty() =~= head);
    while i < s.steps.len()
        invariant
            i <= s.steps@.len(),
            steps == views(s.steps@),
            views(out@) == head + numbered(steps.take(i as int)),
        decreases s.steps@.len() - i,
    {
        let ghost done = numbered(steps.take(i as int));
        proof {
            assert(steps.take(i + 1).drop_last() =~= steps.take(i as int));
            assert(steps.take(i + 1).last() == s.steps@[i as int]@);
        }
        put_text(out, "  ");
        let k = decimal((i as u128) + 1);
        put_text(out, k.as_str());
        put_text(out, ". ");
        put_step(out, &s.steps[i]);
        put_text(out, "\n");
        assert(views(out@) =~= head + numbered(steps.take(i + 1)));
        i += 1;
    }
    assert(steps.take(i as int) =~= steps);
    assert(views(out@) =~= first + sequence_pieces(s@));
}

fn put_match(out: &mut Vec<Piece>, ps: &Vec<AttrPred>)
    ensures
        views(final(out)@) == views(old(out)@) + match_pieces(views(ps@)),
{
    let ghost first = views(out@);
    let ghost models = views(ps@);
    put_text(out, "\nmatches a token pattern:\n");
    if ps.len() == 0 {
        put_text(out, "  (any token)\n");
        assert(views(out@) =~= first + match_pieces(models));
        return ;
    }
    let ghost head = views(out@);
    let mut i: usize = 0;
    assert(models.take(0) =~= Seq::<PredModel>::empty());
    assert(head + Seq::<PieceModel>::empty() =~= head);
    while i < ps.len()
        invariant
            i <= ps@.len(),
            models == views(ps@),
            views(out@) == head + itemized(models.take(i as int)),
        decreases ps@.len() - i,
    {
        proof {
            assert(models.take(i + 1).drop_last() =~= models.take(i as int));
            assert(models.take(i + 1).last() == ps@[i as int]@);
        }
        put_text(out, "  - ");
        put_pred(out, &ps[i]);
        put_text(out, "\n");
        assert(views(out@) =~= head + itemized(models.take(i + 1)));
        i += 1;
    }
    assert(models.take(i as int) =~= models);
    assert(views(out@) =~= first + match_pieces(models));
}

fn put_clauses(out: &mut Vec<Piece>, label: &str, cs: &Vec<ClauseMatcher>)
    ensures
        views(final(out)@) == views(old(out)@) + clause_pieces(label@, views(cs@)),
{
    let ghost first = views(out@);
    let ghost models = views(cs@);
    let mut i: usize = 0;
    assert(models.take(0) =~= Seq::<ClauseModel>::empty());
    assert(first + Seq::<PieceModel>::empty() =~= first);
    while i < cs.len()
        invariant
            i <= cs@.len(),
            models == views(cs@),
            views(out@) == first + clause_pieces(label@, models.take(i as int)),
        decreases cs@.len() - i,
    {
        assert(models.take(i + 1).drop_last() =~= models.take(i as int));
        assert(models.take(i + 1).last() == cs@[i as int]@);
        put_text(out, label);
        put_preds(out, &cs[i].preds);
        put_text(out, "\n");
        assert(views(out@) =~= first + clause_pieces(label@, models.take(i + 1)));
        i += 1;
    }
    assert(models.take(i as int) =~= models);
}

fn put_where(out: &mut Vec<Piece>, w: &Option<CompiledWhereScope>)
    ensures
        views(final(out)@) == views(old(out)@) + where_pieces(crate::text::opt_view(*w)),
{
    let ghost first = views(out@);
    if let Some(m) = w {
        put_text(out, "where_scope (enclosing block):\n");
        put_clauses(out, "  - contains: ", &m.contains);
        put_clauses(out, "  - not_contains: ", &m.not_contains);
        put_clauses(out, "  - followed_by: ", &m.followed_by);
    }
    assert(views(out@) =~= first + where_pieces(crate::text::opt_view(*w)));
}

fn put_unless(out: &mut Vec<Piece>, u: &Option<CompiledUnless>)
    ensures
        views(final(out)@) == views(old(out)@) + unless_pieces(crate::text::opt_view(*u)),
{
    let ghost first = views(out@);
    if let Some(m) = u {
        put_text(out, "unless:\n");
        if m.path_matches.is_some() {
            put_text(out, "  - path.matches: <globs>\n");
        }
        put_opt(out, "  - waiver.exists: rule=", &m.waiver_rule, "\n");
        let topic = match &m.adr_topic {
            Some(t) => Some(debug_string(t.as_str())),
            None => None,
        };
        put_opt(out, "  - adr.exists: topic=", &topic, "\n");
    }
    assert(views(out@) =~= first + unless_pieces(crate::text::opt_view(*u)));
}

fn put_body(out: &mut Vec<Piece>, rule: &CompiledRule)
    ensures
        views(final(out)@) == views(old(out)@) + body_pieces(rule@),
{
    if let Some(c) = &rule.compose {
        put_compose(out, c);
    } else if let Some(c) = &rule.count {
        put_count(out, c);
    } else if let Some(s) = &rule.sequence {
        put_sequence(out, s);
    } else {
        put_match(out, &rule.preds);
    }
}

/// Explains a rule.
pub fn explain(rule: &CompiledRule) -> (r: Vec<Piece>)
    ensures
        views(r@) == explanation(rule@),
{
    let mut out: Vec<Piece> = Vec::new();
    assert(views(out@) =~= Seq::<PieceModel>::empty());
    put_text(&mut out, rule.id.as_str());
    assert(views(out@) =~= say(rule.id@));
    put_text(&mut out, " [");
    put_text(&mut out, rule.severity.label());
    put_text(&mut out, "]\n");
    put_opt(&mut out, "\n", &rule.description, "\n");
    put_languages(&mut out, &rule.languages);
    put_body(&mut out, rule);
    put_where(&mut out, &rule.where_scope);
    put_unless(&mut out, &rule.unless);
    put_opt(&mut out, "\nremediation: ", &rule.message, "\n");
    out
}

/// The first rule with an id.
pub fn find_rule<'a>(rules: &'a [CompiledRule], id: &str) -> (r: Option<&'a CompiledRule>)
    ensures
        match r {
            Some(x) => exists|i: int|
                0 <= i < rules@.len() && *x == #[trigger] rules@[i] && x@.id == id@ && forall|k: int|
                    0 <= k < i ==> (#[trigger] rules@[k])@.id != id@,
            None => forall|k: int| 0 <= k < rules@.len() ==> (#[trigger] rules@[k])@.id != id@,
        },
{
    let mut i: usize = 0;
    while i < rules.len()
        invariant
            i <= rules@.len(),
            forall|k: int| 0 <= k < i ==> (#[trigger] rules@[k])@.id != id@,
        decreases rules@.len() - i,
    {
        if same(rules[i].id.as_str(), id) {
            return Some(&rules[i]);
        }
        i += 1;
    }
    None
}

} // verus!
