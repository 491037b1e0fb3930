//! Token patterns and sequence steps: from their tokens to what they match.

use vstd::prelude::*;

use crate::compile::{
    alternatives_of,
    anchored,
    concat,
    conjunction_means_both,
    lemma_collected_all,
    matcher_of,
    pred_of,
    preds_of,
    sequence_of,
    steps_of,
};
use crate::dsl::{
    atom_at,
    atoms_from,
    choice_from,
    clause_at,
    is_mark,
    is_word,
    pattern_at,
    plain_step,
    pred_at,
    preds_from,
    sequence_at,
    set_from,
    step_at,
    step_body_at,
    steps_from,
    tok_at,
    token_match,
    Toks,
};
use crate::event::ElementModel;
use crate::laws::grammar::{mark, stands, word, yields};
use crate::laws::predicates::lemma_one_tok;
use crate::lexer::{Mark, TokModel};
use crate::order::{also, find, put, text_lt};
use crate::rules::{
    matcher_holds,
    pred_attr,
    pred_holds,
    preds_hold,
    step_accepts,
    MatcherModel,
    PredModel,
    Quant,
    StepModel,
};
use crate::schema::{AttrsModel, BindsModel, RawSequenceModel, RawStepModel, RawWhereModel};

verus! {

/// Whether a predicate holds of an element.
pub open spec fn true_of(p: PredModel, e: ElementModel, binds: BindsModel) -> bool {
    pred_holds(p, (e.fields)(pred_attr(p)), binds)
}

/// Whether each of several predicates holds of an element.
pub open spec fn all_true_of(ps: Seq<PredModel>, e: ElementModel, binds: BindsModel) -> bool {
    forall|i: int| 0 <= i < ps.len() ==> true_of(#[trigger] ps[i], e, binds)
}

/// Whether a pattern compiles to predicates that together say the same as those given.
pub open spec fn means(attrs: AttrsModel, ps: Seq<PredModel>) -> bool {
    preds_of(attrs) is Ok && forall|e: ElementModel, binds: BindsModel| #[trigger]
        preds_hold(preds_of(attrs)->Ok_0, e, binds) <==> all_true_of(ps, e, binds)
}

/// Whether a pattern that means some predicates is read, and ends at a position.
pub open spec fn reads_pattern(t: Toks, p: int, ps: Seq<PredModel>, q: int) -> bool {
    match pattern_at(t, p) {
        Ok((attrs, r)) => r == q && means(attrs, ps),
        Err(_) => false,
    }
}

proof fn lemma_no_preds()
    ensures
        means(Seq::empty(), Seq::empty()),
{
    let none = Seq::<(Seq<char>, crate::value::DatumModel)>::empty();
    let items = none.map_values(|e: (Seq<char>, crate::value::DatumModel)| pred_of(e.0, e.1));
    lemma_collected_all(items, Seq::empty());
    assert(preds_of(none) == Ok::<Seq<PredModel>, Seq<char>>(Seq::empty()));
}

proof fn lemma_one_more(
    attrs: AttrsModel,
    ps: Seq<PredModel>,
    k: Seq<char>,
    v: crate::value::DatumModel,
    p: PredModel,
)
    requires
        means(attrs, ps),
        pred_of(k, v) == Ok::<PredModel, Seq<char>>(p),
    ensures
        means(also(attrs, k, v), ps.push(p)),
{
    let none = ElementModel { kind: crate::event::EventKind::Token, fields: |s: Seq<char>| Seq::empty() };
    conjunction_means_both(attrs, k, v, none, Seq::empty());
    assert forall|e: ElementModel, binds: BindsModel| #[trigger]
        preds_hold(preds_of(also(attrs, k, v))->Ok_0, e, binds) <==> all_true_of(
            ps.push(p),
            e,
            binds,
        ) by {
        conjunction_means_both(attrs, k, v, e, binds);
        assert(preds_hold(preds_of(attrs)->Ok_0, e, binds) <==> all_true_of(ps, e, binds));
        let more = ps.push(p);
        if all_true_of(more, e, binds) {
            assert(true_of(more[ps.len() as int], e, binds));
            assert forall|i: int| 0 <= i < ps.len() implies true_of(#[trigger] ps[i], e, binds) by {
                assert(true_of(more[i], e, binds));
            }
        }
    }
}

/// `any` and `.` match every lexeme.
pub proof fn any_matches_everything(t: Toks, p: int)
    ensures
        stands(t, p, seq![word("any"@)]) ==> reads_pattern(t, p, Seq::empty(), p + 1),
        stands(t, p, seq![mark(Mark::Dot)]) ==> reads_pattern(t, p, Seq::empty(), p + 1),
{
    lemma_no_preds();
    lemma_one_tok(t, p, word("any"@));
    lemma_one_tok(t, p, mark(Mark::Dot));
}

/// Whether atoms with `&` between them stand at a position, each of which writes down one of
/// the predicates, and end at another.
pub open spec fn chained(t: Toks, p: int, ps: Seq<PredModel>, q: int) -> bool
    decreases ps.len(),
{
    ps.len() > 0 && match atom_at(t, p) {
        Ok(((k, v), r)) => {
            &&& pred_of(k, v) == Ok::<PredModel, Seq<char>>(ps[0])
            &&& if ps.len() == 1 {
                r == q && !is_mark(t, q, Mark::Amp)
            } else {
                is_mark(t, r, Mark::Amp) && chained(t, r + 1, ps.drop_first(), q)
            }
        },
        Err(_) => false,
    }
}

proof fn lemma_chained(
    t: Toks,
    p: int,
    ps: Seq<PredModel>,
    q: int,
    done: AttrsModel,
    before: Seq<PredModel>,
)
    requires
        chained(t, p, ps, q),
        means(done, before),
    ensures
        match atoms_from(t, p, done) {
            Ok((attrs, r)) => r == q && means(attrs, before + ps),
            Err(_) => false,
        },
    decreases ps.len(),
{
    let ((k, v), r) = atom_at(t, p)->Ok_0;
    lemma_one_more(done, before, k, v, ps[0]);
    if ps.len() == 1 {
        assert(before.push(ps[0]) =~= before + ps);
    } else {
        lemma_chained(t, r + 1, ps.drop_first(), q, also(done, k, v), before.push(ps[0]));
        assert(before.push(ps[0]) + ps.drop_first() =~= before + ps);
    }
}

/// `&` conjoins: a chain of atoms matches a lexeme exactly when each of them does, also where
/// several of them speak of the same field.
pub proof fn chains_conjoin(t: Toks, p: int, ps: Seq<PredModel>, q: int)
    requires
        chained(t, p, ps, q),
    ensures
        reads_pattern(t, p, ps, q),
{
    lemma_no_preds();
    lemma_chained(t, p, ps, q, Seq::empty(), Seq::empty());
    assert(Seq::<PredModel>::empty() + ps =~= ps);
}

/// Whether `field <op> value` forms with commas between them stand at a position, each of
/// which writes down one of the predicates under a key of its own, and end at another.
pub open spec fn fielded(
    t: Toks,
    p: int,
    ps: Seq<PredModel>,
    done: AttrsModel,
    q: int,
) -> bool
    decreases ps.len(),
{
    ps.len() > 0 && match pred_at(t, p) {
        Ok(((k, v), r)) => {
            &&& p <= r
            &&& find(done, k) is None
            &&& pred_of(k, v) == Ok::<PredModel, Seq<char>>(ps[0])
            &&& if ps.len() == 1 {
                r == q && !is_mark(t, q, Mark::Comma)
            } else {
                is_mark(t, r, Mark::Comma) && fielded(t, r + 1, ps.drop_first(), put(done, k, v), q)
            }
        },
        Err(_) => false,
    }
}

proof fn lemma_put_new<M>(s: Seq<(Seq<char>, M)>, k: Seq<char>, m: M)
    requires
        find(s, k) is None,
    ensures
        put(s, k, m) == also(s, k, m),
    decreases s.len(),
{
    if s.len() > 0 && !text_lt(k, s[0].0) {
        lemma_put_new(s.drop_first(), k, m);
    }
}

proof fn lemma_fielded(
    t: Toks,
    p: int,
    ps: Seq<PredModel>,
    q: int,
    done: AttrsModel,
    before: Seq<PredModel>,
)
    requires
        fielded(t, p, ps, done, q),
        means(done, before),
    ensures
        match preds_from(t, p, done) {
            Ok((attrs, r)) => r == q && means(attrs, before + ps),
            Err(_) => false,
        },
    decreases ps.len(),
{
    let ((k, v), r) = pred_at(t, p)->Ok_0;
    lemma_put_new(done, k, v);
    lemma_one_more(done, before, k, v, ps[0]);
    if ps.len() == 1 {
        assert(before.push(ps[0]) =~= before + ps);
    } else {
        lemma_fielded(t, r + 1, ps.drop_first(), q, put(done, k, v), before.push(ps[0]));
        assert(before.push(ps[0]) + ps.drop_first() =~= before + ps);
    }
}

/// `Token[…]` matches a lexeme exactly when each of its predicates holds; without predicates
/// it matches every lexeme.
pub proof fn token_forms_conjoin(t: Toks, p: int, ps: Seq<PredModel>, q: int)
    requires
        stands(t, p, seq![word("Token"@), mark(Mark::LBrack)]),
        is_mark(t, q, Mark::RBrack),
        if ps.len() == 0 {
            q == p + 2
        } else {
            fielded(t, p + 2, ps, Seq::empty(), q) && !is_mark(t, p + 2, Mark::RBrack)
        },
    ensures
        reads_pattern(t, p, ps, q + 1),
{
    let ws = seq![word("Token"@), mark(Mark::LBrack)];
    assert(tok_at(t, p + 0) == Some(ws[0]) && tok_at(t, p + 1) == Some(ws[1]));
    reveal_strlit("any");
    reveal_strlit("Token");
    assert("any"@.len() == 3 && "Token"@.len() == 5);
    lemma_no_preds();
    if ps.len() > 0 {
        lemma_fielded(t, p + 2, ps, q, Seq::empty(), Seq::empty());
        assert(Seq::<PredModel>::empty() + ps =~= ps);
    } else {
        assert(ps =~= Seq::<PredModel>::empty());
    }
}

// ---------------------------------------------------------------------------
// Steps
// ---------------------------------------------------------------------------

/// The tokens in front of what a step matches: `not` where it is negated, and `x:` where the
/// matched text is bound.
pub open spec fn prefix_toks(negate: bool, var: Option<Seq<char>>) -> Seq<TokModel> {
    (if negate {
        seq![word("not"@)]
    } else {
        Seq::empty()
    }) + (match var {
        Some(x) => seq![TokModel::Bind(x)],
        None => Seq::empty(),
    })
}

/// Whether a position begins with what a step matches and not with a token that belongs in
/// front of it: not `not`, not `x:`, and `^` only in front of a regex.
pub open spec fn begins_body(t: Toks, p: int) -> bool {
    &&& !is_word(t, p, "not"@)
    &&& !(tok_at(t, p) matches Some(TokModel::Bind(_)))
    &&& is_mark(t, p, Mark::Caret) ==> (tok_at(t, p + 1) matches Some(TokModel::Regex(_)))
}

/// The captures of a step that binds the matched text.
pub open spec fn text_bind(var: Option<Seq<char>>) -> BindsModel {
    match var {
        Some(x) => seq![(x, "text"@)],
        None => Seq::empty(),
    }
}

/// What a step compiles to, by the quantifier behind it: itself, an optional step for `?`, a
/// repetition for `*`, and for `+` a step followed by a repetition that captures nothing.
pub open spec fn quantified(
    behind: Option<TokModel>,
    matcher: MatcherModel,
    negate: bool,
    bind: BindsModel,
) -> Seq<StepModel> {
    let once = StepModel { matcher, quant: Quant::One, negate, bind };
    if behind == Some(TokModel::Mark(Mark::Star)) {
        seq![StepModel { quant: Quant::ZeroOrMore, ..once }]
    } else if behind == Some(TokModel::Mark(Mark::Question)) {
        seq![StepModel { quant: Quant::Optional, ..once }]
    } else if behind == Some(TokModel::Mark(Mark::Plus)) {
        seq![once, StepModel { quant: Quant::ZeroOrMore, bind: Seq::empty(), ..once }]
    } else {
        seq![once]
    }
}

/// Whether a token is a quantifier.
pub open spec fn is_quantifier(k: Option<TokModel>) -> bool {
    ||| k == Some(TokModel::Mark(Mark::Star))
    ||| k == Some(TokModel::Mark(Mark::Question))
    ||| k == Some(TokModel::Mark(Mark::Plus))
}

/// Whether a step is read that compiles to the given steps, and ends at a position.
pub open spec fn reads_step(t: Toks, p: int, steps: Seq<StepModel>, q: int) -> bool {
    match step_at(t, p) {
        Ok((raw, r)) => r == q && steps_of(raw) == Ok::<Seq<StepModel>, Seq<char>>(steps),
        Err(_) => false,
    }
}

/// A step is what it matches, with `not` in front of it where it is negated, `x:` where the
/// matched text is bound to `x`, and a quantifier behind it.
pub proof fn steps_say_what_they_match(
    t: Toks,
    p: int,
    b: int,
    q: int,
    negate: bool,
    var: Option<Seq<char>>,
    attrs: AttrsModel,
    alt: Option<Seq<Seq<RawStepModel>>>,
    matcher: MatcherModel,
)
    requires
        stands(t, p, prefix_toks(negate, var)),
        b == p + prefix_toks(negate, var).len(),
        begins_body(t, b),
        yields(step_body_at(t, b), (attrs, alt), q),
        forall|raw: RawStepModel|
            raw.event is None && raw.attrs == attrs && raw.alt == alt ==> #[trigger] matcher_of(raw)
                == Ok::<MatcherModel, Seq<char>>(matcher),
        ({
            let r = if is_quantifier(tok_at(t, q)) {
                q + 1
            } else {
                q
            };
            !is_word(t, r, "as"@)
        }),
    ensures
        reads_step(
            t,
            p,
            quantified(tok_at(t, q), matcher, negate, text_bind(var)),
            if is_quantifier(tok_at(t, q)) {
                q + 1
            } else {
                q
            },
        ),
{
    let pre = prefix_toks(negate, var);
    if negate {
        assert(tok_at(t, p + 0) == Some(pre[0]));
        if var is Some {
            assert(tok_at(t, p + 1) == Some(pre[1]));
        }
    } else if var is Some {
        assert(tok_at(t, p + 0) == Some(pre[0]));
    }
    reveal_strlit("one");
    reveal_strlit("one_or_more");
    reveal_strlit("optional");
    reveal_strlit("zero_or_more");
    assert("one"@.len() == 3 && "one_or_more"@.len() == 11 && "optional"@.len() == 8);
    assert("zero_or_more"@.len() == 12);
    let raw = (step_at(t, p)->Ok_0).0;
    assert(step_at(t, p) is Ok);
    assert(matcher_of(raw) == Ok::<MatcherModel, Seq<char>>(matcher));
    let none = Seq::<(Seq<char>, Seq<char>)>::empty();
    if let Some(x) = var {
        assert(put(none, x, "text"@) =~= seq![(x, "text"@)]);
    }
    let got = steps_of(raw)->Ok_0;
    assert(got =~= quantified(tok_at(t, q), matcher, negate, text_bind(var)));
}

/// Negation turns a step around, and a step with alternatives accepts what any of them
/// matches.
pub proof fn negation_and_choice(s: StepModel, m: MatcherModel, e: ElementModel, binds: BindsModel)
    ensures
        step_accepts(StepModel { negate: true, ..s }, e, binds) <==> !step_accepts(
            StepModel { negate: false, ..s },
            e,
            binds,
        ),
        step_accepts(StepModel { negate: false, ..s }, e, binds) <==> matcher_holds(
            s.matcher,
            e,
            binds,
        ),
        m is Alt ==> (matcher_holds(m, e, binds) <==> exists|i: int|
            0 <= i < m->Alt_0.len() && matcher_holds(#[trigger] m->Alt_0[i], e, binds)),
{
    if m is Alt {
        let ms = m->Alt_0;
        if exists|i: int| 0 <= i < ms.len() && matcher_holds(#[trigger] ms[i], e, binds) {
            let i = choose|i: int| 0 <= i < ms.len() && matcher_holds(#[trigger] ms[i], e, binds);
            assert(matcher_holds(ms[i], e, binds));
        }
    }
}

/// A pattern that means predicates matches an element exactly when they all hold.
pub proof fn patterns_match_by_their_predicates(attrs: AttrsModel, ps: Seq<PredModel>)
    requires
        means(attrs, ps),
    ensures
        forall|raw: RawStepModel|
            raw.event is None && raw.attrs == attrs && raw.alt is None ==> {
                &&& (#[trigger] matcher_of(raw)) is Ok
                &&& forall|e: ElementModel, binds: BindsModel| #[trigger]
                    matcher_holds(matcher_of(raw)->Ok_0, e, binds) <==> all_true_of(ps, e, binds)
            },
{
    assert forall|raw: RawStepModel|
        raw.event is None && raw.attrs == attrs && raw.alt is None implies {
        &&& (#[trigger] matcher_of(raw)) is Ok
        &&& forall|e: ElementModel, binds: BindsModel| #[trigger]
            matcher_holds(matcher_of(raw)->Ok_0, e, binds) <==> all_true_of(ps, e, binds)
    } by {
        let vs = preds_of(attrs)->Ok_0;
        assert(matcher_of(raw) == Ok::<MatcherModel, Seq<char>>(
            MatcherModel::Pat { kind: None, preds: vs },
        ));
        assert forall|e: ElementModel, binds: BindsModel| #[trigger]
            matcher_holds(matcher_of(raw)->Ok_0, e, binds) <==> all_true_of(ps, e, binds) by {
            assert(preds_hold(vs, e, binds) <==> all_true_of(ps, e, binds));
        }
    }
}

/// Alternatives that are each one pattern.
pub open spec fn as_alternatives(list: Seq<AttrsModel>) -> Seq<Seq<RawStepModel>> {
    list.map_values(
        |a: AttrsModel|
            seq![
                RawStepModel {
                    event: None,
                    attrs: a,
                    quant: None,
                    negate: None,
                    bind: None,
                    alt: None,
                },
            ],
    )
}

/// Whether patterns with `|` between them stand at a position and end at another.
pub open spec fn piped(t: Toks, p: int, list: Seq<AttrsModel>, q: int) -> bool
    decreases list.len(),
{
    list.len() > 0 && match pattern_at(t, p) {
        Ok((attrs, r)) => p <= r && attrs == list[0] && if list.len() == 1 {
            r == q && !is_mark(t, q, Mark::Pipe)
        } else {
            is_mark(t, r, Mark::Pipe) && piped(t, r + 1, list.drop_first(), q)
        },
        Err(_) => false,
    }
}

/// Whether patterns stand one after the other at a position, up to a closing bracket.
pub open spec fn in_a_row(t: Toks, p: int, list: Seq<AttrsModel>, q: int) -> bool
    decreases list.len(),
{
    list.len() > 0 && match pattern_at(t, p) {
        Ok((attrs, r)) => p < r <= t.len() && attrs == list[0] && if list.len() == 1 {
            r == q && is_mark(t, q, Mark::RBrack)
        } else {
            !is_mark(t, r, Mark::RBrack) && in_a_row(t, r, list.drop_first(), q)
        },
        Err(_) => false,
    }
}

proof fn lemma_piped(t: Toks, p: int, list: Seq<AttrsModel>, q: int, done: Seq<Seq<RawStepModel>>)
    requires
        piped(t, p, list, q),
    ensures
        yields(choice_from(t, p, done), done + as_alternatives(list), q),
    decreases list.len(),
{
    let r = (pattern_at(t, p)->Ok_0).1;
    let next = done.push(seq![plain_step(list[0])]);
    if list.len() == 1 {
        assert(next =~= done + as_alternatives(list));
    } else {
        lemma_piped(t, r + 1, list.drop_first(), q, next);
        assert(next + as_alternatives(list.drop_first()) =~= done + as_alternatives(list));
    }
}

proof fn lemma_in_a_row(t: Toks, p: int, list: Seq<AttrsModel>, q: int, done: Seq<Seq<RawStepModel>>)
    requires
        in_a_row(t, p, list, q),
    ensures
        yields(set_from(t, p, done), done + as_alternatives(list), q),
    decreases list.len(),
{
    let r = (pattern_at(t, p)->Ok_0).1;
    let next = done.push(seq![plain_step(list[0])]);
    if list.len() == 1 {
        assert(next =~= done + as_alternatives(list));
    } else {
        lemma_in_a_row(t, r, list.drop_first(), q, next);
        assert(next + as_alternatives(list.drop_first()) =~= done + as_alternatives(list));
    }
}

/// A step body is a choice `( a | b )`, a set `[ a b ]`, or a pattern.
pub proof fn step_bodies_hold_alternatives(t: Toks, p: int, list: Seq<AttrsModel>, q: int)
    ensures
        is_mark(t, p, Mark::LParen) && piped(t, p + 1, list, q) && is_mark(t, q, Mark::RParen)
            ==> yields(step_body_at(t, p), (Seq::empty(), Some(as_alternatives(list))), q + 1),
        is_mark(t, p, Mark::LBrack) && in_a_row(t, p + 1, list, q) ==> yields(
            step_body_at(t, p),
            (Seq::empty(), Some(as_alternatives(list))),
            q + 1,
        ),
        list.len() == 1 && !is_mark(t, p, Mark::LParen) && !is_mark(t, p, Mark::LBrack) && yields(
            pattern_at(t, p),
            list[0],
            q,
        ) ==> yields(step_body_at(t, p), (list[0], None), q),
{
    let none = Seq::<Seq<RawStepModel>>::empty();
    assert(none + as_alternatives(list) =~= as_alternatives(list));
    if is_mark(t, p, Mark::LParen) && piped(t, p + 1, list, q) {
        lemma_piped(t, p + 1, list, q, none);
    }
    if is_mark(t, p, Mark::LBrack) && in_a_row(t, p + 1, list, q) {
        lemma_in_a_row(t, p + 1, list, q, none);
        lemma_row_end(t, p + 1, list, q);
    }
}

proof fn lemma_row_end(t: Toks, p: int, list: Seq<AttrsModel>, q: int)
    requires
        in_a_row(t, p, list, q),
    ensures
        is_mark(t, q, Mark::RBrack),
    decreases list.len(),
{
    if list.len() > 1 {
        lemma_row_end(t, (pattern_at(t, p)->Ok_0).1, list.drop_first(), q);
    }
}

/// A step with alternatives matches an element exactly when all predicates of one of them
/// hold.
pub proof fn alternatives_match_if_any_does(
    raw: RawStepModel,
    list: Seq<AttrsModel>,
    pss: Seq<Seq<PredModel>>,
)
    requires
        raw.alt == Some(as_alternatives(list)),
        list.len() == pss.len(),
        forall|i: int| 0 <= i < list.len() ==> means(#[trigger] list[i], pss[i]),
    ensures
        matcher_of(raw) is Ok,
        forall|e: ElementModel, binds: BindsModel| #[trigger]
            matcher_holds(matcher_of(raw)->Ok_0, e, binds) <==> exists|i: int|
                0 <= i < pss.len() && all_true_of(#[trigger] pss[i], e, binds),
{
    let alts = as_alternatives(list);
    let items = alternatives_of(alts);
    let ms = Seq::new(
        list.len(),
        |i: int| MatcherModel::Pat { kind: None, preds: preds_of(list[i])->Ok_0 },
    );
    assert forall|i: int| 0 <= i < items.len() implies #[trigger] items[i] == Ok::<
        MatcherModel,
        Seq<char>,
    >(ms[i]) by {
        assert(means(list[i], pss[i]));
        let one = alts[i][0];
        assert(matcher_of(one) == Ok::<MatcherModel, Seq<char>>(ms[i]));
    }
    lemma_collected_all(items, ms);
    let m = matcher_of(raw)->Ok_0;
    assert(m == MatcherModel::Alt(ms));
    assert forall|e: ElementModel, binds: BindsModel| #[trigger]
        matcher_holds(m, e, binds) <==> exists|i: int|
            0 <= i < pss.len() && all_true_of(#[trigger] pss[i], e, binds) by {
        let any = StepModel { matcher: m, quant: Quant::One, negate: false, bind: Seq::empty() };
        negation_and_choice(any, m, e, binds);
        assert forall|i: int| 0 <= i < ms.len() implies matcher_holds(#[trigger] ms[i], e, binds)
            == all_true_of(pss[i], e, binds) by {
            assert(means(list[i], pss[i]));
            assert(preds_hold(preds_of(list[i])->Ok_0, e, binds) <==> all_true_of(
                pss[i],
                e,
                binds,
            ));
        }
        if matcher_holds(m, e, binds) {
            let i = choose|i: int|
                0 <= i < m->Alt_0.len() && matcher_holds(#[trigger] m->Alt_0[i], e, binds);
            assert(matcher_holds(ms[i], e, binds));
            assert(all_true_of(pss[i], e, binds));
        }
        if exists|i: int| 0 <= i < pss.len() && all_true_of(#[trigger] pss[i], e, binds) {
            let i = choose|i: int| 0 <= i < pss.len() && all_true_of(#[trigger] pss[i], e, binds);
            assert(matcher_holds(ms[i], e, binds));
            assert(matcher_holds(m->Alt_0[i], e, binds));
        }
    }
}

// ---------------------------------------------------------------------------
// Sequences
// ---------------------------------------------------------------------------

/// Whether steps that compile to the given runs of steps stand at a position, up to a closing
/// brace.
pub open spec fn stepped(t: Toks, p: int, runs: Seq<Seq<StepModel>>, q: int) -> bool
    decreases runs.len(),
{
    if runs.len() == 0 {
        p == q && is_mark(t, p, Mark::RBrace)
    } else {
        !is_mark(t, p, Mark::RBrace) && tok_at(t, p) is Some && match step_at(t, p) {
            Ok((raw, r)) => p < r <= t.len() && steps_of(raw) == Ok::<Seq<StepModel>, Seq<char>>(
                runs[0],
            ) && stepped(t, r, runs.drop_first(), q),
            Err(_) => false,
        }
    }
}

spec fn compile_to(raws: Seq<RawStepModel>, runs: Seq<Seq<StepModel>>) -> bool {
    raws.len() == runs.len() && forall|i: int|
        0 <= i < raws.len() ==> steps_of(#[trigger] raws[i]) == Ok::<Seq<StepModel>, Seq<char>>(
            runs[i],
        )
}

proof fn lemma_stepped(
    t: Toks,
    p: int,
    runs: Seq<Seq<StepModel>>,
    q: int,
    done: Seq<RawStepModel>,
    before: Seq<Seq<StepModel>>,
)
    requires
        stepped(t, p, runs, q),
        compile_to(done, before),
    ensures
        match steps_from(t, p, done) {
            Ok((raws, r)) => r == q + 1 && compile_to(raws, before + runs),
            Err(_) => false,
        },
    decreases runs.len(),
{
    if runs.len() == 0 {
        assert(before + runs =~= before);
    } else {
        let (raw, r) = step_at(t, p)->Ok_0;
        lemma_stepped(t, r, runs.drop_first(), q, done.push(raw), before.push(runs[0]));
        assert(before.push(runs[0]) + runs.drop_first() =~= before + runs);
    }
}

/// A sequence is its steps, one after the other, tried in each block with `in scope` and in
/// the whole file without it.
pub proof fn sequences_hold_their_steps(
    t: Toks,
    p: int,
    scoped: bool,
    runs: Seq<Seq<StepModel>>,
    q: int,
)
    requires
        scoped ==> stands(t, p, seq![word("in"@), word("scope"@), mark(Mark::LBrace)]) && stepped(
            t,
            p + 3,
            runs,
            q,
        ),
        !scoped ==> stands(t, p, seq![mark(Mark::LBrace)]) && stepped(t, p + 1, runs, q),
    ensures
        match sequence_at(t, p) {
            Ok((raw, r)) => r == q + 1 && match sequence_of(raw) {
                Ok(s) => s.within_scope == scoped && s.steps == concat(runs),
                Err(_) => false,
            },
            Err(_) => false,
        },
{
    let none = Seq::<RawStepModel>::empty();
    let empty = Seq::<Seq<StepModel>>::empty();
    let b = if scoped {
        p + 3
    } else {
        p + 1
    };
    lemma_stepped(t, b, runs, q, none, empty);
    assert(empty + runs =~= runs);
    let (raws, r) = steps_from(t, b, none)->Ok_0;
    let anchor = if scoped {
        Some(Some("ScopeStart..ScopeEnd"@))
    } else {
        None
    };
    let raw = RawSequenceModel { anchor, steps: raws };
    assert(yields(sequence_at(t, p), raw, q + 1)) by {
        if scoped {
            let ws = seq![word("in"@), word("scope"@), mark(Mark::LBrace)];
            assert(tok_at(t, p + 0) == Some(ws[0]) && tok_at(t, p + 1) == Some(ws[1]));
            assert(tok_at(t, p + 2) == Some(ws[2]));
        } else {
            lemma_one_tok(t, p, mark(Mark::LBrace));
        }
    }
    lemma_compiled(raw, runs);
    lemma_anchor();
}

proof fn lemma_compiled(raw: RawSequenceModel, runs: Seq<Seq<StepModel>>)
    requires
        compile_to(raw.steps, runs),
    ensures
        match sequence_of(raw) {
            Ok(s) => s.within_scope == anchored(raw.anchor) && s.steps == concat(runs),
            Err(_) => false,
        },
{
    let items = raw.steps.map_values(|s: RawStepModel| steps_of(s));
    assert forall|i: int| 0 <= i < items.len() implies #[trigger] items[i] == Ok::<
        Seq<StepModel>,
        Seq<char>,
    >(runs[i]) by {
        assert(steps_of(raw.steps[i]) == Ok::<Seq<StepModel>, Seq<char>>(runs[i]));
    }
    lemma_collected_all(items, runs);
}

proof fn lemma_anchor()
    ensures
        anchored(Some(Some("ScopeStart..ScopeEnd"@))),
{
    let w = "ScopeStart..ScopeEnd"@;
    reveal_strlit("ScopeStart..ScopeEnd");
    reveal_strlit("ScopeStart");
    reveal_strlit("ScopeEnd");
    assert(w.subrange(0, 10) =~= "ScopeStart"@);
    assert(w.subrange(12, 20) =~= "ScopeEnd"@);
    assert(crate::text::occurs_at(w, "ScopeStart"@, 0));
    assert(crate::text::occurs_at(w, "ScopeEnd"@, 12));
}

// ---------------------------------------------------------------------------
// Scope clauses
// ---------------------------------------------------------------------------

/// `where scope contains`, `where scope not contains` and `where scope followed by` each add
/// one clause of their kind behind those read before, and change nothing else.
pub proof fn where_adds_a_clause(t: Toks, p: int, done: RawWhereModel, attrs: AttrsModel, q: int)
    ensures
        stands(t, p, seq![word("scope"@), word("contains"@)]) && yields(
            pattern_at(t, p + 2),
            attrs,
            q,
        ) ==> yields(
            clause_at(t, p, done),
            RawWhereModel { contains: done.contains.push(token_match(attrs)), ..done },
            q,
        ),
        stands(t, p, seq![word("scope"@), word("not"@), word("contains"@)]) && yields(
            pattern_at(t, p + 3),
            attrs,
            q,
        ) ==> yields(
            clause_at(t, p, done),
            RawWhereModel { not_contains: done.not_contains.push(token_match(attrs)), ..done },
            q,
        ),
        stands(t, p, seq![word("scope"@), word("followed"@), word("by"@)]) && yields(
            pattern_at(t, p + 3),
            attrs,
            q,
        ) ==> yields(
            clause_at(t, p, done),
            RawWhereModel { followed_by: done.followed_by.push(token_match(attrs)), ..done },
            q,
        ),
        token_match(attrs).event is None,
        token_match(attrs).attrs == attrs,
{
    reveal_strlit("not");
    reveal_strlit("contains");
    reveal_strlit("followed");
    assert("not"@.len() == 3 && "contains"@.len() == 8 && "followed"@.len() == 8);
    assert("contains"@[0] == 'c' && "followed"@[0] == 'f');
    let a = seq![word("scope"@), word("contains"@)];
    let b = seq![word("scope"@), word("not"@), word("contains"@)];
    let c = seq![word("scope"@), word("followed"@), word("by"@)];
    if stands(t, p, a) {
        assert(tok_at(t, p + 0) == Some(a[0]) && tok_at(t, p + 1) == Some(a[1]));
    }
    if stands(t, p, b) {
        assert(tok_at(t, p + 0) == Some(b[0]) && tok_at(t, p + 1) == Some(b[1]));
        assert(tok_at(t, p + 2) == Some(b[2]));
    }
    if stands(t, p, c) {
        assert(tok_at(t, p + 0) == Some(c[0]) && tok_at(t, p + 1) == Some(c[1]));
        assert(tok_at(t, p + 2) == Some(c[2]));
    }
}

/// `as x = field` behind a step captures the first text of a field under a name, besides the
/// text that `x:` in front of it binds; a quantifier stands between.
pub proof fn as_captures_a_field(
    t: Toks,
    p: int,
    q: int,
    attrs: AttrsModel,
    alt: Option<Seq<Seq<RawStepModel>>>,
    x: Seq<char>,
    field: Seq<char>,
)
    requires
        begins_body(t, p),
        yields(step_body_at(t, p), (attrs, alt), q),
        stands(t, q, seq![word("as"@), word(x), mark(Mark::Eq), word(field)]),
        !is_mark(t, q + 4, Mark::Comma),
    ensures
        yields(
            step_at(t, p),
            RawStepModel {
                event: None,
                attrs,
                quant: None,
                negate: Some(false),
                bind: Some(seq![(x, field)]),
                alt,
            },
            q + 4,
        ),
{
    let ws = seq![word("as"@), word(x), mark(Mark::Eq), word(field)];
    assert(tok_at(t, q + 0) == Some(ws[0]) && tok_at(t, q + 1) == Some(ws[1]));
    assert(tok_at(t, q + 2) == Some(ws[2]) && tok_at(t, q + 3) == Some(ws[3]));
    let none = Seq::<(Seq<char>, Seq<char>)>::empty();
    assert(put(none, x, field) =~= seq![(x, field)]);
    assert(yields(crate::dsl::binds_from(t, q + 1, none), seq![(x, field)], q + 4));
}

} // verus!
