//! Matching a sequence of steps against a region of elements.

use vstd::prelude::*;
use vstd::std_specs::hash::*;

use crate::event::{Element, ElementModel};
use crate::rules::{
    any_captures,
    captured,
    closer,
    closes_delimiter,
    matcher_holds,
    matcher_refers,
    pred_refers,
    sequence_wf,
    step_accepts,
    step_captures,
    Balance,
    CompiledSequence,
    MatcherModel,
    Quant,
    SequenceModel,
    StepModel,
};
use crate::schema::{Bindings, BindsModel};
use std::collections::HashSet;

verus! {

/// What patterns see of a list of elements.
pub open spec fn elements<E: Element>(region: Seq<E>) -> Seq<ElementModel> {
    region.map_values(|e: E| e.element())
}

/// What a step of a sequence has to do with delimiters.
pub open spec fn role_of(s: SequenceModel, si: int) -> Balance {
    if 0 <= si < s.balance.len() {
        s.balance[si]
    } else {
        Balance::Free
    }
}

/// Whether the elements at two positions are linked, given where each links to.
pub open spec fn linked_to(links: Seq<Option<int>>, a: int, b: int) -> bool {
    0 <= a < links.len() && links[a] == Some(b)
}

/// Whether a step may take the element at `ei` as far as delimiters go, where those at
/// the positions `held` are open: a closing one has to be linked with the innermost.
pub open spec fn balances(role: Balance, links: Seq<Option<int>>, ei: int, held: Seq<int>) -> bool {
    role == Balance::Closes ==> held.len() > 0 && linked_to(links, held.last(), ei)
}

/// The positions of open delimiters after a step took the element at `ei`.
pub open spec fn still_held(role: Balance, ei: int, held: Seq<int>) -> Seq<int> {
    match role {
        Balance::Free => held,
        Balance::Opens => held.push(ei),
        Balance::Closes => held.drop_last(),
    }
}

/// Whether the steps from `si` on can consume the elements from `ei` on exactly to
/// the end, where the captures so far are those given and the delimiters at the
/// positions `held` are open. `links` says where each element links to.
pub open spec fn consumes(
    s: SequenceModel,
    si: int,
    es: Seq<ElementModel>,
    links: Seq<Option<int>>,
    ei: int,
    binds: BindsModel,
    held: Seq<int>,
) -> bool
    decreases (s.steps.len() - si) + (es.len() - ei),
{
    if si < 0 || ei < 0 || ei > es.len() || si > s.steps.len() {
        false
    } else if si == s.steps.len() {
        ei == es.len()
    } else {
        let step = s.steps[si];
        let role = role_of(s, si);
        let takes = ei < es.len() && step_accepts(step, es[ei], binds);
        let next = captured(step.bind, es[ei], binds);
        match step.quant {
            Quant::One => takes && balances(role, links, ei, held) && consumes(
                s,
                si + 1,
                es,
                links,
                ei + 1,
                next,
                still_held(role, ei, held),
            ),
            Quant::Optional => (takes && consumes(s, si + 1, es, links, ei + 1, next, held))
                || consumes(s, si + 1, es, links, ei, binds, held),
            Quant::ZeroOrMore => consumes(s, si + 1, es, links, ei, binds, held) || (takes
                && consumes(s, si, es, links, ei + 1, next, held)),
        }
    }
}

/// The numbers below `n` for which a condition holds, in increasing order.
pub open spec fn positions(n: int, f: spec_fn(int) -> bool) -> Seq<int>
    decreases n,
{
    if n <= 0 {
        Seq::empty()
    } else if f(n - 1) {
        positions(n - 1, f).push(n - 1)
    } else {
        positions(n - 1, f)
    }
}

/// Whether a sequence matches from a position: there the steps consume the region to
/// its end.
pub open spec fn matches_at(
    s: SequenceModel,
    es: Seq<ElementModel>,
    links: Seq<Option<int>>,
    p: int,
) -> bool {
    consumes(s, 0, es, links, p, Seq::empty(), Seq::empty())
}

/// The positions from which a sequence matches.
pub open spec fn anchors_of(
    s: SequenceModel,
    es: Seq<ElementModel>,
    links: Seq<Option<int>>,
) -> Seq<int> {
    positions(es.len() as int, |p: int| matches_at(s, es, links, p))
}

// ---------------------------------------------------------------------------
// Without captures, the bindings do not matter
// ---------------------------------------------------------------------------

proof fn lemma_matcher_unbound(m: MatcherModel, e: ElementModel, a: BindsModel, b: BindsModel)
    requires
        !matcher_refers(m),
    ensures
        matcher_holds(m, e, a) == matcher_holds(m, e, b),
    decreases m,
{
    match m {
        MatcherModel::Pat { kind, preds } => {
            assert forall|i: int| 0 <= i < preds.len() implies crate::rules::pred_holds(
                #[trigger] preds[i],
                (e.fields)(crate::rules::pred_attr(preds[i])),
                a,
            ) == crate::rules::pred_holds(
                preds[i],
                (e.fields)(crate::rules::pred_attr(preds[i])),
                b,
            ) by {
                assert(!pred_refers(preds[i]));
            }
        },
        MatcherModel::Alt(alts) => {
            assert forall|i: int| 0 <= i < alts.len() implies matcher_holds(
                #[trigger] alts[i],
                e,
                a,
            ) == matcher_holds(alts[i], e, b) by {
                assert(!matcher_refers(alts[i]));
                lemma_matcher_unbound(alts[i], e, a, b);
            }
        },
    }
}

/// Where no step captures or refers to a capture, what has been captured before
/// does not matter.
pub proof fn captures_do_not_matter(
    s: SequenceModel,
    si: int,
    es: Seq<ElementModel>,
    links: Seq<Option<int>>,
    ei: int,
    a: BindsModel,
    b: BindsModel,
    held: Seq<int>,
)
    requires
        !any_captures(s.steps),
    ensures
        consumes(s, si, es, links, ei, a, held) == consumes(s, si, es, links, ei, b, held),
    decreases (s.steps.len() - si) + (es.len() - ei),
{
    if 0 <= si < s.steps.len() && 0 <= ei <= es.len() {
        let step = s.steps[si];
        assert(!step_captures(step));
        captures_do_not_matter(s, si + 1, es, links, ei, a, b, held);
        if ei < es.len() {
            let more = still_held(role_of(s, si), ei, held);
            lemma_matcher_unbound(step.matcher, es[ei], a, b);
            captures_do_not_matter(s, si + 1, es, links, ei + 1, a, b, held);
            captures_do_not_matter(s, si + 1, es, links, ei + 1, a, b, more);
            captures_do_not_matter(s, si, es, links, ei + 1, a, b, held);
        }
    }
}

/// Whether no step pairs delimiters.
pub open spec fn all_free(balance: Seq<Balance>) -> bool {
    forall|i: int| 0 <= i < balance.len() ==> #[trigger] balance[i] == Balance::Free
}

/// What is known to fail: each stored element position cannot be consumed to the
/// end from the step of its row on.
spec fn failures_ok(
    failed: Seq<HashSet<usize>>,
    s: SequenceModel,
    es: Seq<ElementModel>,
    links: Seq<Option<int>>,
) -> bool {
    &&& failed.len() == s.steps.len()
    &&& forall|si: int, ei: usize| #![trigger failed[si]@.contains(ei)]
        0 <= si < failed.len() && failed[si]@.contains(ei) ==> !consumes(
            s,
            si,
            es,
            links,
            ei as int,
            Seq::empty(),
            Seq::empty(),
        )
}

/// The models of links.
pub open spec fn link_models(links: Seq<Option<usize>>) -> Seq<Option<int>> {
    links.map_values(
        |l: Option<usize>|
            match l {
                Some(j) => Some(j as int),
                None => None,
            },
    )
}

// The positions of open delimiters.
spec fn places(held: Seq<usize>) -> Seq<int> {
    held.map_values(|p: usize| p as int)
}

fn is_linked(links: &Vec<Option<usize>>, a: usize, b: usize) -> (r: bool)
    ensures
        r == linked_to(link_models(links@), a as int, b as int),
{
    if a < links.len() {
        match links[a] {
            Some(j) => j == b,
            None => false,
        }
    } else {
        false
    }
}

fn fits_balance(role: Balance, links: &Vec<Option<usize>>, ei: usize, held: &Vec<usize>) -> (r: bool)
    ensures
        r == balances(role, link_models(links@), ei as int, places(held@)),
{
    match role {
        Balance::Closes => {
            if held.len() > 0 {
                assert(places(held@).last() == held@[held@.len() - 1]);
                is_linked(links, held[held.len() - 1], ei)
            } else {
                false
            }
        },
        _ => true,
    }
}

fn hold(role: Balance, ei: usize, held: &Vec<usize>) -> (r: Vec<usize>)
    requires
        role == Balance::Closes ==> held@.len() > 0,
    ensures
        places(r@) == still_held(role, ei as int, places(held@)),
{
    let mut out: Vec<usize> = Vec::new();
    let mut i: usize = 0;
    while i < held.len()
        invariant
            i <= held@.len(),
            out@ == held@.take(i as int),
        decreases held@.len() - i,
    {
        out.push(held[i]);
        i += 1;
        assert(out@ =~= held@.take(i as int));
    }
    assert(out@ =~= held@);
    match role {
        Balance::Free => {},
        Balance::Opens => {
            out.push(ei);
        },
        Balance::Closes => {
            let gone = out.pop();
        },
    }
    assert(places(out@) =~= still_held(role, ei as int, places(held@)));
    out
}

fn match_here<E: Element>(
    seq: &CompiledSequence,
    si: usize,
    region: &[E],
    links: &Vec<Option<usize>>,
    ei: usize,
    binds: &Bindings,
    held: &Vec<usize>,
    memo: bool,
    failed: &mut Vec<HashSet<usize>>,
) -> (r: bool)
    requires
        si <= seq.steps@.len(),
        ei <= region@.len(),
        seq.balance@.len() == seq.steps@.len(),
        memo ==> !any_captures(seq@.steps) && all_free(seq@.balance) && held@.len() == 0,
        failures_ok(old(failed)@, seq@, elements(region@), link_models(links@)),
    ensures
        r == consumes(
            seq@,
            si as int,
            elements(region@),
            link_models(links@),
            ei as int,
            binds@,
            places(held@),
        ),
        failures_ok(final(failed)@, seq@, elements(region@), link_models(links@)),
        forall|a: int, e: usize|
            0 <= a < old(failed)@.len() && #[trigger] old(failed)@[a]@.contains(e)
                ==> final(failed)@[a]@.contains(e),
        memo && !r && si < seq.steps@.len() ==> final(failed)@[si as int]@.contains(ei),
        !memo ==> final(failed)@ == old(failed)@,
    decreases (seq.steps@.len() - si) + (region@.len() - ei),
{
    broadcast use group_hash_axioms;

    let ghost s = seq@;
    let ghost es = elements(region@);
    let ghost ls = link_models(links@);
    if si == seq.steps.len() {
        return ei == region.len();
    }
    proof {
        if memo {
            captures_do_not_matter(
                s,
                si as int,
                es,
                ls,
                ei as int,
                binds@,
                Seq::empty(),
                Seq::empty(),
            );
            assert(places(held@) =~= Seq::<int>::empty());
        }
    }
    if memo && failed[si].contains(&ei) {
        return false;
    }
    let step = &seq.steps[si];
    let role = seq.balance[si];
    assert(s.steps[si as int] == step@);
    assert(role_of(s, si as int) == role);
    let takes = ei < region.len() && step.accepts(&region[ei], binds);
    let result = match step.quant {
        Quant::One => {
            if takes && fits_balance(role, links, ei, held) {
                let next = step.apply_bind(&region[ei], binds);
                assert(places(held@).len() == held@.len());
                let more = hold(role, ei, held);
                assert(memo ==> more@.len() == 0) by {
                    if memo {
                        assert(s.balance[si as int] == Balance::Free);
                        assert(places(more@).len() == more@.len());
                    }
                }
                match_here(seq, si + 1, region, links, ei + 1, &next, &more, memo, failed)
            } else {
                false
            }
        },
        Quant::Optional => {
            let mut found = false;
            if takes {
                let next = step.apply_bind(&region[ei], binds);
                found = match_here(seq, si + 1, region, links, ei + 1, &next, held, memo, failed);
            }
            if found {
                true
            } else {
                match_here(seq, si + 1, region, links, ei, binds, held, memo, failed)
            }
        },
        Quant::ZeroOrMore => {
            if match_here(seq, si + 1, region, links, ei, binds, held, memo, failed) {
                true
            } else if takes {
                let next = step.apply_bind(&region[ei], binds);
                match_here(seq, si, region, links, ei + 1, &next, held, memo, failed)
            } else {
                false
            }
        },
    };
    if !result && memo {
        let ghost before = failed@;
        failed[si].insert(ei);
        assert forall|a: int, e: usize| #![trigger failed@[a]@.contains(e)]
            0 <= a < failed@.len() && failed@[a]@.contains(e) implies !consumes(
            s,
            a,
            es,
            ls,
            e as int,
            Seq::empty(),
            Seq::empty(),
        ) by {
            if a == si && e == ei {
            } else {
                assert(before[a]@.contains(e));
            }
        }
    }
    result
}

fn is_all_free(balance: &Vec<Balance>) -> (r: bool)
    ensures
        r == all_free(balance@),
{
    let mut i: usize = 0;
    while i < balance.len()
        invariant
            i <= balance@.len(),
            forall|k: int| 0 <= k < i ==> #[trigger] balance@[k] == Balance::Free,
        decreases balance@.len() - i,
    {
        if balance[i] != Balance::Free {
            return false;
        }
        i += 1;
    }
    true
}

/// Every position within the region at which the sequence matches. A match must
/// consume the whole region from its start position onward, so a trailing negated
/// run means "none in the rest of the region". Explicit delimiter steps balance: the
/// one that closes has to take the element that the one that opens is linked with, so
/// that a wildcard between them cannot escape the pair.
pub fn match_sequence<E: Element>(
    seq: &CompiledSequence,
    region: &[E],
    links: &Vec<Option<usize>>,
) -> (r: Vec<usize>)
    requires
        sequence_wf(seq@),
    ensures
        r@.map_values(|p: usize| p as int) == anchors_of(
            seq@,
            elements(region@),
            link_models(links@),
        ),
{
    broadcast use group_hash_axioms;

    let ghost s = seq@;
    let ghost es = elements(region@);
    let ghost ls = link_models(links@);
    let ghost f = |p: int| matches_at(s, es, ls, p);
    let mut failed: Vec<HashSet<usize>> = Vec::new();
    let mut i: usize = 0;
    while i < seq.steps.len()
        invariant
            i <= seq.steps@.len(),
            failed@.len() == i,
            forall|k: int| 0 <= k < i ==> (#[trigger] failed@[k])@ == Set::<usize>::empty(),
        decreases seq.steps@.len() - i,
    {
        failed.push(HashSet::new());
        i += 1;
    }
    let memo = !seq.has_captures && is_all_free(&seq.balance);
    proof {
        crate::compile::lemma_balanced_shape(s.steps, s.steps.len() as int);
    }
    let mut anchors: Vec<usize> = Vec::new();
    let mut p: usize = 0;
    assert(anchors@.map_values(|p: usize| p as int) =~= positions(0, f));
    while p < region.len()
        invariant
            p <= region@.len(),
            s == seq@,
            es == elements(region@),
            ls == link_models(links@),
            seq.balance@.len() == seq.steps@.len(),
            memo ==> !any_captures(s.steps) && all_free(s.balance),
            f == (|p: int| matches_at(s, es, ls, p)),
            failures_ok(failed@, s, es, ls),
            anchors@.map_values(|p: usize| p as int) == positions(p as int, f),
        decreases region@.len() - p,
    {
        let empty = Bindings::new();
        let none: Vec<usize> = Vec::new();
        let ghost done = anchors@;
        assert(places(none@) =~= Seq::<int>::empty());
        if match_here(seq, 0, region, links, p, &empty, &none, memo, &mut failed) {
            anchors.push(p);
            assert(anchors@.map_values(|p: usize| p as int) =~= done.map_values(
                |p: usize| p as int,
            ).push(p as int));
        }
        p += 1;
    }
    anchors
}

// ---------------------------------------------------------------------------
// Laws
// ---------------------------------------------------------------------------


/// A trailing `not X *` means "no `X` in the rest of the region".
pub proof fn trailing_negation_means_none(
    s: SequenceModel,
    es: Seq<ElementModel>,
    links: Seq<Option<int>>,
    ei: int,
    binds: BindsModel,
    held: Seq<int>,
)
    requires
        s.steps.len() > 0,
        s.steps.last().quant == Quant::ZeroOrMore,
        s.steps.last().negate,
        s.steps.last().bind.len() == 0,
        0 <= ei <= es.len(),
    ensures
        consumes(s, s.steps.len() - 1, es, links, ei, binds, held) <==> (forall|k: int|
            ei <= k < es.len() ==> !matcher_holds(s.steps.last().matcher, #[trigger] es[k], binds)),
    decreases es.len() - ei,
{
    let si = s.steps.len() - 1;
    let m = s.steps.last().matcher;
    assert(consumes(s, si + 1, es, links, ei, binds, held) == (ei == es.len()));
    if ei < es.len() {
        trailing_negation_means_none(s, es, links, ei + 1, binds, held);
        assert(captured(s.steps[si].bind, es[ei], binds) == binds);
        if forall|k: int| ei <= k < es.len() ==> !matcher_holds(m, #[trigger] es[k], binds) {
            assert(!matcher_holds(m, es[ei], binds));
        }
        if !matcher_holds(m, es[ei], binds) && (forall|k: int|
            ei + 1 <= k < es.len() ==> !matcher_holds(m, #[trigger] es[k], binds)) {
            assert forall|k: int| ei <= k < es.len() implies !matcher_holds(
                m,
                #[trigger] es[k],
                binds,
            ) by {
                if k > ei {
                    assert(ei + 1 <= k);
                }
            }
        }
    }
}

/// A trailing `any *` takes whatever is left of the region.
pub proof fn trailing_wildcard_takes_the_rest(
    s: SequenceModel,
    es: Seq<ElementModel>,
    links: Seq<Option<int>>,
    ei: int,
    binds: BindsModel,
    held: Seq<int>,
)
    requires
        s.steps.len() > 0,
        s.steps.last().quant == Quant::ZeroOrMore,
        !s.steps.last().negate,
        s.steps.last().matcher == (MatcherModel::Pat { kind: None, preds: Seq::empty() }),
        0 <= ei <= es.len(),
    ensures
        consumes(s, s.steps.len() - 1, es, links, ei, binds, held),
    decreases es.len() - ei,
{
    let si = s.steps.len() - 1;
    assert(consumes(s, si + 1, es, links, ei, binds, held) == (ei == es.len()));
    if ei < es.len() {
        assert(step_accepts(s.steps[si], es[ei], binds));
        trailing_wildcard_takes_the_rest(
            s,
            es,
            links,
            ei + 1,
            captured(s.steps[si].bind, es[ei], binds),
            held,
        );
    }
}

pub proof fn lemma_positions(n: int, f: spec_fn(int) -> bool, p: int)
    ensures
        positions(n, f).contains(p) <==> 0 <= p < n && f(p),
    decreases n,
{
    let s = positions(n, f);
    if n > 0 {
        let before = positions(n - 1, f);
        lemma_positions(n - 1, f, p);
        if f(n - 1) {
            if before.contains(p) {
                let i = before.index_of(p);
                assert(s[i] == p);
            }
            if p == n - 1 {
                assert(s[before.len() as int] == p);
            }
            if s.contains(p) && p != n - 1 {
                let i = s.index_of(p);
                assert(before[i] == p);
            }
        }
    }
}

pub proof fn lemma_positions_increase(n: int, f: spec_fn(int) -> bool)
    ensures
        forall|i: int, j: int|
            0 <= i < j < positions(n, f).len() ==> #[trigger] positions(n, f)[i]
                < #[trigger] positions(n, f)[j],
        forall|i: int| 0 <= i < positions(n, f).len() ==> 0 <= #[trigger] positions(n, f)[i] < n,
    decreases n,
{
    if n > 0 {
        lemma_positions_increase(n - 1, f);
        let s = positions(n, f);
        let before = positions(n - 1, f);
        assert forall|i: int| 0 <= i < s.len() implies 0 <= #[trigger] s[i] < n && (i < before.len()
            ==> s[i] == before[i]) by {
            if i < before.len() {
                assert(0 <= before[i] < n - 1);
            }
        }
        assert forall|i: int, j: int| 0 <= i < j < s.len() implies #[trigger] s[i]
            < #[trigger] s[j] by {
            assert(before[i] < n - 1);
            if j < before.len() {
                assert(before[i] < before[j]);
            }
        }
    }
}

/// Every start position is tried, and each at which the sequence matches is
/// reported once, in order.
pub proof fn every_occurrence_is_found(
    s: SequenceModel,
    es: Seq<ElementModel>,
    links: Seq<Option<int>>,
)
    ensures
        forall|p: int| #[trigger]
            anchors_of(s, es, links).contains(p) <==> 0 <= p < es.len() && matches_at(
                s,
                es,
                links,
                p,
            ),
        forall|i: int, j: int|
            0 <= i < j < anchors_of(s, es, links).len() ==> #[trigger] anchors_of(s, es, links)[i]
                < #[trigger] anchors_of(s, es, links)[j],
{
    let f = |p: int| matches_at(s, es, links, p);
    assert forall|p: int| #[trigger]
        anchors_of(s, es, links).contains(p) <==> 0 <= p < es.len() && matches_at(
            s,
            es,
            links,
            p,
        ) by {
        lemma_positions(es.len() as int, f, p);
    }
    lemma_positions_increase(es.len() as int, f);
}

/// Whether a step accepts each element from `lo` up to `hi`.
pub open spec fn accepts_run(
    step: StepModel,
    es: Seq<ElementModel>,
    lo: int,
    hi: int,
    binds: BindsModel,
) -> bool {
    forall|k: int| lo <= k < hi ==> step_accepts(step, #[trigger] es[k], binds)
}

/// Whether a step that captures nothing takes a run of elements up to some position at
/// or after `least`, from which the steps from `next` on consume the rest.
pub open spec fn takes_run(
    s: SequenceModel,
    step: StepModel,
    next: int,
    es: Seq<ElementModel>,
    links: Seq<Option<int>>,
    ei: int,
    least: int,
    binds: BindsModel,
    held: Seq<int>,
) -> bool {
    exists|k: int|
        least <= k <= es.len() && accepts_run(step, es, ei, k, binds) && #[trigger] consumes(
            s,
            next,
            es,
            links,
            k,
            binds,
            held,
        )
}

/// `X *` takes any number of elements that each match `X`, none included, and leaves
/// the rest to the steps after it.
pub proof fn repetition_takes_any_number(
    s: SequenceModel,
    si: int,
    es: Seq<ElementModel>,
    links: Seq<Option<int>>,
    ei: int,
    binds: BindsModel,
    held: Seq<int>,
)
    requires
        0 <= si < s.steps.len(),
        0 <= ei <= es.len(),
        s.steps[si].quant == Quant::ZeroOrMore,
        s.steps[si].bind.len() == 0,
    ensures
        consumes(s, si, es, links, ei, binds, held) <==> takes_run(
            s,
            s.steps[si],
            si + 1,
            es,
            links,
            ei,
            ei,
            binds,
            held,
        ),
    decreases es.len() - ei,
{
    let step = s.steps[si];
    if ei < es.len() {
        repetition_takes_any_number(s, si, es, links, ei + 1, binds, held);
        assert(captured(step.bind, es[ei], binds) == binds);
    }
    if consumes(s, si, es, links, ei, binds, held) {
        if consumes(s, si + 1, es, links, ei, binds, held) {
            assert(accepts_run(step, es, ei, ei, binds));
        } else {
            assert(consumes(s, si, es, links, ei + 1, binds, held));
            let k = choose|k: int|
                ei + 1 <= k <= es.len() && accepts_run(step, es, ei + 1, k, binds)
                    && #[trigger] consumes(s, si + 1, es, links, k, binds, held);
            assert(accepts_run(step, es, ei, k, binds)) by {
                assert forall|j: int| ei <= j < k implies step_accepts(
                    step,
                    #[trigger] es[j],
                    binds,
                ) by {
                    if j > ei {
                        assert(ei + 1 <= j);
                    }
                }
            }
        }
    }
    if takes_run(s, step, si + 1, es, links, ei, ei, binds, held) {
        let k = choose|k: int|
            ei <= k <= es.len() && accepts_run(step, es, ei, k, binds) && #[trigger] consumes(
                s,
                si + 1,
                es,
                links,
                k,
                binds,
                held,
            );
        if k > ei {
            assert(step_accepts(step, es[ei], binds));
            assert(accepts_run(step, es, ei + 1, k, binds));
            assert(takes_run(s, step, si + 1, es, links, ei + 1, ei + 1, binds, held));
        }
    }
}

/// `X +`, which is a match followed by a repetition of the same, takes at least one
/// element that matches `X`.
pub proof fn one_or_more_takes_at_least_one(
    s: SequenceModel,
    si: int,
    es: Seq<ElementModel>,
    links: Seq<Option<int>>,
    ei: int,
    binds: BindsModel,
    held: Seq<int>,
)
    requires
        0 <= si,
        si + 1 < s.steps.len(),
        0 <= ei <= es.len(),
        s.steps[si].quant == Quant::One,
        s.steps[si].bind.len() == 0,
        s.steps[si + 1] == (StepModel { quant: Quant::ZeroOrMore, ..s.steps[si] }),
        role_of(s, si) == Balance::Free,
    ensures
        consumes(s, si, es, links, ei, binds, held) <==> takes_run(
            s,
            s.steps[si],
            si + 2,
            es,
            links,
            ei,
            ei + 1,
            binds,
            held,
        ),
{
    let step = s.steps[si];
    let more = s.steps[si + 1];
    if ei < es.len() {
        repetition_takes_any_number(s, si + 1, es, links, ei + 1, binds, held);
        assert(captured(step.bind, es[ei], binds) == binds);
        assert forall|e: ElementModel| #[trigger] step_accepts(more, e, binds) == step_accepts(
            step,
            e,
            binds,
        ) by {}
    }
    if consumes(s, si, es, links, ei, binds, held) {
        let k = choose|k: int|
            ei + 1 <= k <= es.len() && accepts_run(more, es, ei + 1, k, binds)
                && #[trigger] consumes(s, si + 2, es, links, k, binds, held);
        assert(accepts_run(step, es, ei, k, binds)) by {
            assert forall|j: int| ei <= j < k implies step_accepts(step, #[trigger] es[j], binds) by {
                if j > ei {
                    assert(step_accepts(more, es[j], binds));
                }
            }
        }
    }
    if takes_run(s, step, si + 2, es, links, ei, ei + 1, binds, held) {
        let k = choose|k: int|
            ei + 1 <= k <= es.len() && accepts_run(step, es, ei, k, binds) && #[trigger] consumes(
                s,
                si + 2,
                es,
                links,
                k,
                binds,
                held,
            );
        assert(step_accepts(step, es[ei], binds));
        assert(accepts_run(more, es, ei + 1, k, binds)) by {
            assert forall|j: int| ei + 1 <= j < k implies step_accepts(
                more,
                #[trigger] es[j],
                binds,
            ) by {
                assert(step_accepts(step, es[j], binds));
            }
        }
        assert(takes_run(s, more, si + 2, es, links, ei + 1, ei + 1, binds, held));
    }
}

/// A wildcard cannot escape a pair: where a repetition stands between two steps that
/// pair delimiters, it takes exactly the elements between an opening delimiter and the
/// closing one that it is linked with.
pub proof fn pairs_hold_repetitions_in(
    s: SequenceModel,
    si: int,
    es: Seq<ElementModel>,
    links: Seq<Option<int>>,
    ei: int,
    binds: BindsModel,
    held: Seq<int>,
)
    requires
        0 <= si,
        si + 2 < s.steps.len(),
        0 <= ei < es.len(),
        s.steps[si].quant == Quant::One,
        s.steps[si + 1].quant == Quant::ZeroOrMore,
        s.steps[si + 2].quant == Quant::One,
        s.steps[si].bind.len() == 0,
        s.steps[si + 1].bind.len() == 0,
        s.steps[si + 2].bind.len() == 0,
        role_of(s, si) == Balance::Opens,
        role_of(s, si + 2) == Balance::Closes,
        consumes(s, si, es, links, ei, binds, held),
    ensures
        exists|j: int|
            ei < j < es.len() && #[trigger] linked_to(links, ei, j) && accepts_run(
                s.steps[si + 1],
                es,
                ei + 1,
                j,
                binds,
            ) && step_accepts(s.steps[si + 2], es[j], binds) && consumes(
                s,
                si + 3,
                es,
                links,
                j + 1,
                binds,
                held,
            ),
{
    let inner = held.push(ei);
    assert(captured(s.steps[si].bind, es[ei], binds) == binds);
    assert(consumes(s, si + 1, es, links, ei + 1, binds, inner));
    repetition_takes_any_number(s, si + 1, es, links, ei + 1, binds, inner);
    let k = choose|k: int|
        ei + 1 <= k <= es.len() && accepts_run(s.steps[si + 1], es, ei + 1, k, binds)
            && #[trigger] consumes(s, si + 2, es, links, k, binds, inner);
    assert(captured(s.steps[si + 2].bind, es[k], binds) == binds);
    assert(inner.last() == ei);
    assert(inner.drop_last() =~= held);
    assert(linked_to(links, ei, k));
}

/// How far matching has come: the step and the element that come next, the captures so
/// far and the positions of the open delimiters.
pub struct Progress {
    pub step: int,
    pub at: int,
    pub binds: BindsModel,
    pub held: Seq<int>,
}

/// Whether the steps between can take the elements between, from one state of progress
/// to another.
pub open spec fn reaches(
    s: SequenceModel,
    es: Seq<ElementModel>,
    links: Seq<Option<int>>,
    from: Progress,
    to: Progress,
) -> bool
    decreases (s.steps.len() - from.step) + (es.len() - from.at),
{
    from == to || (0 <= from.step < s.steps.len() && 0 <= from.at <= es.len() && {
        let step = s.steps[from.step];
        let role = role_of(s, from.step);
        let takes = from.at < es.len() && step_accepts(step, es[from.at], from.binds);
        let binds = captured(step.bind, es[from.at], from.binds);
        let skip = (Progress { step: from.step + 1, ..from });
        match step.quant {
            Quant::One => takes && balances(role, links, from.at, from.held) && reaches(
                s,
                es,
                links,
                (Progress {
                    step: from.step + 1,
                    at: from.at + 1,
                    binds,
                    held: still_held(role, from.at, from.held),
                }),
                to,
            ),
            Quant::Optional => (takes && reaches(
                s,
                es,
                links,
                (Progress { step: from.step + 1, at: from.at + 1, binds, held: from.held }),
                to,
            )) || reaches(s, es, links, skip, to),
            Quant::ZeroOrMore => reaches(s, es, links, skip, to) || (takes && reaches(
                s,
                es,
                links,
                (Progress { step: from.step, at: from.at + 1, binds, held: from.held }),
                to,
            )),
        }
    })
}

// Whether the rest of a region can be consumed from a state of progress on.
spec fn goes_through(
    s: SequenceModel,
    es: Seq<ElementModel>,
    links: Seq<Option<int>>,
    p: Progress,
) -> bool {
    consumes(s, p.step, es, links, p.at, p.binds, p.held)
}

// From where the first `base` of the open delimiters are open, matching passes the step
// that closes the last of them, with just those open.
proof fn lemma_reaches_closer(
    s: SequenceModel,
    es: Seq<ElementModel>,
    links: Seq<Option<int>>,
    p: Progress,
    base: int,
) -> (q: Progress)
    requires
        sequence_wf(s),
        0 < base <= p.held.len(),
        closer(s.balance, p.step, (p.held.len() - base) as nat) is Some,
        goes_through(s, es, links, p),
    ensures
        closer(s.balance, p.step, (p.held.len() - base) as nat) == Some(q.step),
        p.at <= q.at,
        q.held == p.held.take(base),
        reaches(s, es, links, p, q),
        goes_through(s, es, links, q),
    decreases (s.steps.len() - p.step) + (es.len() - p.at),
{
    crate::compile::lemma_balanced_shape(s.steps, s.steps.len() as int);
    let step = s.steps[p.step];
    let role = role_of(s, p.step);
    assert(role == s.balance[p.step]);
    if role != Balance::Free {
        crate::compile::pairing_steps_match_once(s.steps, p.step);
    }
    if role == Balance::Closes && p.held.len() == base {
        assert(p.held.take(base) =~= p.held);
        p
    } else {
        let takes = p.at < es.len() && step_accepts(step, es[p.at], p.binds);
        let binds = captured(step.bind, es[p.at], p.binds);
        let held = still_held(role, p.at, p.held);
        let skip = Progress { step: p.step + 1, ..p };
        let stay = Progress { step: p.step, at: p.at + 1, binds, held: p.held };
        let next = Progress { step: p.step + 1, at: p.at + 1, binds, held };
        assert(held.take(base) =~= p.held.take(base));
        if step.quant != Quant::One && goes_through(s, es, links, skip) {
            lemma_reaches_closer(s, es, links, skip, base)
        } else if step.quant == Quant::ZeroOrMore {
            assert(goes_through(s, es, links, stay));
            lemma_reaches_closer(s, es, links, stay, base)
        } else {
            assert(goes_through(s, es, links, next));
            lemma_reaches_closer(s, es, links, next, base)
        }
    }
}

/// What it means that an opening step at `si` took the element at `ei` and the step at
/// `sj`, which closes its pair, took the element at `j`: the two elements are linked, the
/// steps between took the elements between, and the rest of the region is consumed with
/// the delimiters open that were open before the pair.
pub open spec fn pair_taken(
    s: SequenceModel,
    si: int,
    sj: int,
    es: Seq<ElementModel>,
    links: Seq<Option<int>>,
    ei: int,
    j: int,
    binds: BindsModel,
    inner: BindsModel,
    held: Seq<int>,
) -> bool {
    let first = captured(s.steps[si].bind, es[ei], binds);
    let last = captured(s.steps[sj].bind, es[j], inner);
    let open = held.push(ei);
    &&& ei < j < es.len()
    &&& linked_to(links, ei, j)
    &&& step_accepts(s.steps[si], es[ei], binds)
    &&& step_accepts(s.steps[sj], es[j], inner)
    &&& reaches(
        s,
        es,
        links,
        (Progress { step: si + 1, at: ei + 1, binds: first, held: open }),
        (Progress { step: sj, at: j, binds: inner, held: open }),
    )
    &&& consumes(s, sj + 1, es, links, j + 1, last, held)
}

/// Pairs balance: wherever steps consume a region, and one of them opens a pair, the
/// step that closes the pair takes the element that the opening one's element is linked
/// to, whatever steps, captures and pairs stand between. So nothing that stands inside a
/// pair takes an element outside it.
pub proof fn pairs_close_where_linked(
    s: SequenceModel,
    si: int,
    es: Seq<ElementModel>,
    links: Seq<Option<int>>,
    ei: int,
    binds: BindsModel,
    held: Seq<int>,
)
    requires
        sequence_wf(s),
        0 <= si < s.steps.len(),
        role_of(s, si) == Balance::Opens,
        consumes(s, si, es, links, ei, binds, held),
    ensures
        match closer(s.balance, si + 1, 0) {
            Some(sj) => {
                &&& si < sj < s.steps.len()
                &&& closes_delimiter(s.steps[si], s.steps[sj])
                &&& exists|j: int, inner: BindsModel|
                    #[trigger] pair_taken(s, si, sj, es, links, ei, j, binds, inner, held)
            },
            None => false,
        },
{
    crate::compile::lemma_balanced_shape(s.steps, s.steps.len() as int);
    crate::compile::opening_steps_are_closed(s.steps, si);
    let open = held.push(ei);
    let first = captured(s.steps[si].bind, es[ei], binds);
    let p = Progress { step: si + 1, at: ei + 1, binds: first, held: open };
    assert(goes_through(s, es, links, p));
    let q = lemma_reaches_closer(s, es, links, p, open.len() as int);
    assert(open.take(open.len() as int) =~= open);
    assert(open.last() == ei);
    assert(open.drop_last() =~= held);
    assert(q == (Progress { step: q.step, at: q.at, binds: q.binds, held: open }));
    assert(pair_taken(s, si, q.step, es, links, ei, q.at, binds, q.binds, held));
}


// Matching passes every step.
proof fn lemma_passes_step(
    s: SequenceModel,
    es: Seq<ElementModel>,
    links: Seq<Option<int>>,
    p: Progress,
    si: int,
) -> (q: Progress)
    requires
        p.step <= si <= s.steps.len(),
        goes_through(s, es, links, p),
    ensures
        q.step == si,
        p.at <= q.at,
        reaches(s, es, links, p, q),
        goes_through(s, es, links, q),
    decreases (s.steps.len() - p.step) + (es.len() - p.at),
{
    if p.step == si {
        p
    } else {
        let step = s.steps[p.step];
        let role = role_of(s, p.step);
        let binds = captured(step.bind, es[p.at], p.binds);
        let skip = Progress { step: p.step + 1, ..p };
        let stay = Progress { step: p.step, at: p.at + 1, binds, held: p.held };
        let next = Progress {
            step: p.step + 1,
            at: p.at + 1,
            binds,
            held: if step.quant == Quant::One {
                still_held(role, p.at, p.held)
            } else {
                p.held
            },
        };
        if step.quant != Quant::One && goes_through(s, es, links, skip) {
            lemma_passes_step(s, es, links, skip, si)
        } else if step.quant == Quant::ZeroOrMore {
            assert(goes_through(s, es, links, stay));
            lemma_passes_step(s, es, links, stay, si)
        } else {
            assert(goes_through(s, es, links, next));
            lemma_passes_step(s, es, links, next, si)
        }
    }
}

/// In every match of a sequence, each of its pairs takes two linked elements: matching
/// comes to the opening step, which takes an element, and goes on to the closing one,
/// which takes the element linked with it.
pub proof fn matches_close_pairs_where_linked(
    s: SequenceModel,
    si: int,
    es: Seq<ElementModel>,
    links: Seq<Option<int>>,
    p: int,
)
    requires
        sequence_wf(s),
        0 <= si < s.steps.len(),
        role_of(s, si) == Balance::Opens,
        matches_at(s, es, links, p),
    ensures
        closer(s.balance, si + 1, 0) is Some,
        exists|ei: int, j: int, binds: BindsModel, inner: BindsModel, held: Seq<int>|
            p <= ei && reaches(
                s,
                es,
                links,
                (Progress { step: 0, at: p, binds: Seq::empty(), held: Seq::empty() }),
                (Progress { step: si, at: ei, binds, held }),
            ) && #[trigger] pair_taken(
                s,
                si,
                closer(s.balance, si + 1, 0)->0,
                es,
                links,
                ei,
                j,
                binds,
                inner,
                held,
            ),
{
    let start = Progress { step: 0, at: p, binds: Seq::empty(), held: Seq::empty() };
    assert(goes_through(s, es, links, start));
    let q = lemma_passes_step(s, es, links, start, si);
    pairs_close_where_linked(s, si, es, links, q.at, q.binds, q.held);
    let sj = closer(s.balance, si + 1, 0)->0;
    let (j, inner) = choose|j: int, inner: BindsModel|
        #[trigger] pair_taken(s, si, sj, es, links, q.at, j, q.binds, inner, q.held);
    assert(q == (Progress { step: si, at: q.at, binds: q.binds, held: q.held }));
    assert(pair_taken(s, si, sj, es, links, q.at, j, q.binds, inner, q.held));
}


} // verus!
