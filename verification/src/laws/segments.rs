//! What it means that a sequence matches: the lexemes fall into consecutive runs, one for
//! each step.

use vstd::prelude::*;

use crate::compile::{
    open_before,
    opening_steps_are_closed,
    pairing_steps_match_once,
    pairing_steps_nest,
};
use crate::event::ElementModel;
use crate::rules::{captured, closer, sequence_wf, step_accepts, Balance, Quant, SequenceModel};
use crate::schema::BindsModel;
use crate::sequence::{consumes, linked_to, matches_at, role_of};

verus! {

/// Whether a step with a quantifier takes `n` elements: one without a quantifier takes one,
/// `?` at most one, and `*` any number.
pub open spec fn takes(q: Quant, n: int) -> bool {
    match q {
        Quant::One => n == 1,
        Quant::Optional => n == 0 || n == 1,
        Quant::ZeroOrMore => n >= 0,
    }
}

/// Whether a step takes the elements from `lo` up to `hi`: as many as its quantifier says,
/// each of them accepted, where `binds[x]` are the captures before the element at `x`.
pub open spec fn takes_run(
    s: SequenceModel,
    es: Seq<ElementModel>,
    k: int,
    lo: int,
    hi: int,
    binds: Seq<BindsModel>,
) -> bool {
    &&& 0 <= lo <= hi <= es.len()
    &&& takes(s.steps[k].quant, hi - lo)
    &&& forall|x: int|
        lo <= x < hi ==> step_accepts(s.steps[k], #[trigger] es[x], binds[x]) && binds[x + 1]
            == captured(s.steps[k].bind, es[x], binds[x])
}

/// Whether step `k` takes the elements from `cuts[k]` up to `cuts[k + 1]`.
pub open spec fn run_at(
    s: SequenceModel,
    es: Seq<ElementModel>,
    k: int,
    cuts: Seq<int>,
    binds: Seq<BindsModel>,
) -> bool {
    takes_run(s, es, k, cuts[k], cuts[k + 1], binds)
}

/// Whether step `k`, if it opens a pair, takes an element that is linked to the one that the
/// closing step takes.
pub open spec fn pair_at(s: SequenceModel, links: Seq<Option<int>>, k: int, cuts: Seq<int>) -> bool {
    role_of(s, k) == Balance::Opens ==> match closer(s.balance, k + 1, 0) {
        Some(j) => linked_to(links, cuts[k], cuts[j]),
        None => false,
    }
}

/// Whether the steps take the elements from `p` to the end in consecutive runs, where step
/// `k` takes those from `cuts[k]` up to `cuts[k + 1]`, and the two steps of a pair take
/// elements that are linked.
pub open spec fn divides(
    s: SequenceModel,
    es: Seq<ElementModel>,
    links: Seq<Option<int>>,
    p: int,
    cuts: Seq<int>,
    binds: Seq<BindsModel>,
) -> bool {
    &&& cuts.len() == s.steps.len() + 1
    &&& binds.len() == es.len() + 1
    &&& cuts[0] == p
    &&& cuts[s.steps.len() as int] == es.len()
    &&& binds[p] == Seq::<(Seq<char>, Seq<char>)>::empty()
    &&& forall|k: int| 0 <= k < s.steps.len() ==> #[trigger] run_at(s, es, k, cuts, binds)
    &&& forall|k: int| 0 <= k < s.steps.len() ==> #[trigger] pair_at(s, links, k, cuts)
}

// Whether the element of an open pair is linked to the one that the closing step takes.
spec fn waits_at(
    s: SequenceModel,
    links: Seq<Option<int>>,
    k: int,
    held: Seq<int>,
    h: int,
    cuts: Seq<int>,
) -> bool {
    match closer(s.balance, k, (held.len() - 1 - h) as nat) {
        Some(j) => linked_to(links, held[h], cuts[j]),
        None => true,
    }
}

// The same from step `k` on, which comes to the element at `x`, where the elements at the
// positions `held` are those of the open pairs.
spec fn divides_from(
    s: SequenceModel,
    es: Seq<ElementModel>,
    links: Seq<Option<int>>,
    k: int,
    x: int,
    now: BindsModel,
    held: Seq<int>,
    cuts: Seq<int>,
    binds: Seq<BindsModel>,
) -> bool {
    &&& cuts.len() == s.steps.len() + 1
    &&& binds.len() == es.len() + 1
    &&& cuts[k] == x
    &&& cuts[s.steps.len() as int] == es.len()
    &&& binds[x] == now
    &&& runs_from(s, es, k, cuts, binds)
    &&& forall|m: int| k <= m < s.steps.len() ==> #[trigger] pair_at(s, links, m, cuts)
    &&& forall|h: int| 0 <= h < held.len() ==> #[trigger] waits_at(s, links, k, held, h, cuts)
}

proof fn lemma_closer_ahead(roles: Seq<Balance>, k: int, depth: nat)
    requires
        closer(roles, k, depth) is Some,
    ensures
        0 <= k <= closer(roles, k, depth)->0 < roles.len(),
    decreases roles.len() - k,
{
    match roles[k] {
        Balance::Free => lemma_closer_ahead(roles, k + 1, depth),
        Balance::Opens => lemma_closer_ahead(roles, k + 1, depth + 1),
        Balance::Closes => if depth > 0 {
            lemma_closer_ahead(roles, k + 1, (depth - 1) as nat);
        },
    }
}

spec fn runs_from(
    s: SequenceModel,
    es: Seq<ElementModel>,
    k: int,
    cuts: Seq<int>,
    binds: Seq<BindsModel>,
) -> bool {
    forall|m: int| k <= m < s.steps.len() ==> #[trigger] run_at(s, es, m, cuts, binds)
}

proof fn lemma_cuts_increase(
    s: SequenceModel,
    es: Seq<ElementModel>,
    k: int,
    m: int,
    cuts: Seq<int>,
    binds: Seq<BindsModel>,
)
    requires
        0 <= k <= m <= s.steps.len(),
        runs_from(s, es, k, cuts, binds),
    ensures
        cuts[k] <= cuts[m],
    decreases m - k,
{
    if k < m {
        assert(run_at(s, es, k, cuts, binds));
        lemma_cuts_increase(s, es, k + 1, m, cuts, binds);
    }
}

// Runs stay runs where captures before them change.
proof fn lemma_runs_kept(
    s: SequenceModel,
    es: Seq<ElementModel>,
    k: int,
    cuts: Seq<int>,
    binds: Seq<BindsModel>,
    x: int,
    now: BindsModel,
)
    requires
        0 <= k <= s.steps.len(),
        runs_from(s, es, k, cuts, binds),
        binds.len() == es.len() + 1,
        0 <= x < binds.len(),
        x < cuts[k],
    ensures
        runs_from(s, es, k, cuts, binds.update(x, now)),
{
    let after = binds.update(x, now);
    assert forall|m: int| k <= m < s.steps.len() implies #[trigger] run_at(s, es, m, cuts, after) by {
        assert(run_at(s, es, m, cuts, binds));
        lemma_cuts_increase(s, es, k, m, cuts, binds);
        assert forall|y: int| cuts[m] <= y < cuts[m + 1] implies step_accepts(
            s.steps[m],
            #[trigger] es[y],
            after[y],
        ) && after[y + 1] == captured(s.steps[m].bind, es[y], after[y]) by {
            assert(step_accepts(s.steps[m], es[y], binds[y]));
        }
    }
}

// What the recursion of `consumes` found, as runs.
proof fn lemma_runs_of(
    s: SequenceModel,
    es: Seq<ElementModel>,
    links: Seq<Option<int>>,
    k: int,
    x: int,
    now: BindsModel,
    held: Seq<int>,
) -> (r: (Seq<int>, Seq<BindsModel>))
    requires
        sequence_wf(s),
        consumes(s, k, es, links, x, now, held),
    ensures
        divides_from(s, es, links, k, x, now, held, r.0, r.1),
    decreases (s.steps.len() - k) + (es.len() - x),
{
    pairing_steps_nest(s.steps);
    let n = s.steps.len() as int;
    if k == n {
        let cuts = Seq::new((n + 1) as nat, |i: int| x);
        let binds = Seq::new(es.len() + 1, |i: int| now);
        (cuts, binds)
    } else {
        let step = s.steps[k];
        let role = role_of(s, k);
        assert(role == s.balance[k]);
        if role != Balance::Free {
            pairing_steps_match_once(s.steps, k);
        }
        if role == Balance::Opens {
            opening_steps_are_closed(s.steps, k);
        }
        let next = captured(step.bind, es[x], now);
        let stays = step.quant == Quant::ZeroOrMore && !consumes(s, k + 1, es, links, x, now, held);
        let skips = step.quant != Quant::One && consumes(s, k + 1, es, links, x, now, held);
        let k2 = if stays {
            k
        } else {
            k + 1
        };
        let x2 = if skips {
            x
        } else {
            x + 1
        };
        let now2 = if skips {
            now
        } else {
            next
        };
        let held2 = crate::sequence::still_held(role, x, held);
        assert(consumes(s, k2, es, links, x2, now2, held2));
        let (cuts, binds) = lemma_runs_of(s, es, links, k2, x2, now2, held2);
        let cuts2 = cuts.update(k, x);
        let binds2 = binds.update(x, now);
        assert(runs_from(s, es, k2, cuts, binds));
        if skips {
            assert(binds2 =~= binds);
        } else {
            lemma_runs_kept(s, es, k2, cuts, binds, x, now);
        }
        assert forall|m: int| k <= m < n implies #[trigger] run_at(s, es, m, cuts2, binds2) by {
            if m > k || stays {
                assert(run_at(s, es, m, cuts, binds2));
            }
        }
        assert forall|m: int| k <= m < n implies #[trigger] pair_at(s, links, m, cuts2) by {
            if role_of(s, m) == Balance::Opens {
                opening_steps_are_closed(s.steps, m);
                if m > k {
                    assert(pair_at(s, links, m, cuts));
                } else {
                    assert(held2[held2.len() - 1] == x);
                    assert(waits_at(s, links, k + 1, held2, held2.len() - 1, cuts));
                }
            }
        }
        assert forall|h: int| 0 <= h < held.len() implies #[trigger] waits_at(
            s,
            links,
            k,
            held,
            h,
            cuts2,
        ) by {
            let d = (held.len() - 1 - h) as nat;
            if closer(s.balance, k, d) is Some {
                let j = closer(s.balance, k, d)->0;
                if role == Balance::Closes && d == 0 {
                    assert(j == k);
                } else {
                    if h < held2.len() {
                        assert(held2[h] == held[h]);
                    }
                    let d2 = (held2.len() - 1 - h) as nat;
                    assert(closer(s.balance, k + 1, d2) == Some(j));
                    assert(waits_at(s, links, k2, held2, h, cuts));
                    lemma_closer_ahead(s.balance, k + 1, d2);
                }
            }
        }
        (cuts2, binds2)
    }
}

// Runs are what `consumes` looks for.
proof fn lemma_runs_consume(
    s: SequenceModel,
    es: Seq<ElementModel>,
    links: Seq<Option<int>>,
    k: int,
    x: int,
    now: BindsModel,
    held: Seq<int>,
    cuts: Seq<int>,
    binds: Seq<BindsModel>,
)
    requires
        sequence_wf(s),
        0 <= k <= s.steps.len(),
        0 <= x <= es.len(),
        divides_from(s, es, links, k, x, now, held, cuts, binds),
        open_before(s.balance, k, s.steps.len() as int, held.len()) is Some,
    ensures
        consumes(s, k, es, links, x, now, held),
    decreases (s.steps.len() - k) + (es.len() - x),
{
    pairing_steps_nest(s.steps);
    let n = s.steps.len() as int;
    if k < n {
        let step = s.steps[k];
        let role = role_of(s, k);
        assert(role == s.balance[k]);
        if role != Balance::Free {
            pairing_steps_match_once(s.steps, k);
        }
        assert(run_at(s, es, k, cuts, binds));
        let end = cuts[k + 1];
        let next = captured(step.bind, es[x], now);
        if end == x {
            assert forall|h: int| 0 <= h < held.len() implies #[trigger] waits_at(
                s,
                links,
                k + 1,
                held,
                h,
                cuts,
            ) by {
                assert(waits_at(s, links, k, held, h, cuts));
            }
            lemma_runs_consume(s, es, links, k + 1, x, now, held, cuts, binds);
        } else {
            assert(step_accepts(step, es[x], now) && binds[x + 1] == next);
            if step.quant == Quant::ZeroOrMore {
                let cuts2 = cuts.update(k, x + 1);
                assert forall|m: int| k <= m < n implies #[trigger] run_at(s, es, m, cuts2, binds) by {
                    assert(run_at(s, es, m, cuts, binds));
                }
                assert forall|m: int| k <= m < n implies #[trigger] pair_at(s, links, m, cuts2) by {
                    if role_of(s, m) == Balance::Opens {
                        assert(m > k);
                        opening_steps_are_closed(s.steps, m);
                        assert(pair_at(s, links, m, cuts));
                    }
                }
                assert forall|h: int| 0 <= h < held.len() implies #[trigger] waits_at(
                    s,
                    links,
                    k,
                    held,
                    h,
                    cuts2,
                ) by {
                    assert(waits_at(s, links, k, held, h, cuts));
                    let d = (held.len() - 1 - h) as nat;
                    if closer(s.balance, k + 1, d) is Some {
                        lemma_closer_ahead(s.balance, k + 1, d);
                    }
                }
                lemma_runs_consume(s, es, links, k, x + 1, next, held, cuts2, binds);
            } else {
                assert(end == x + 1);
                let held2 = crate::sequence::still_held(role, x, held);
                if role == Balance::Opens {
                    opening_steps_are_closed(s.steps, k);
                    assert(pair_at(s, links, k, cuts));
                }
                if role == Balance::Closes {
                    assert(held.len() > 0);
                    assert(closer(s.balance, k, 0) == Some(k));
                    assert(waits_at(s, links, k, held, held.len() - 1, cuts));
                }
                assert forall|h: int| 0 <= h < held2.len() implies #[trigger] waits_at(
                    s,
                    links,
                    k + 1,
                    held2,
                    h,
                    cuts,
                ) by {
                    if h < held.len() {
                        assert(waits_at(s, links, k, held, h, cuts));
                        assert(held2[h] == held[h]);
                        assert(closer(s.balance, k, (held.len() - 1 - h) as nat) == closer(
                            s.balance,
                            k + 1,
                            (held2.len() - 1 - h) as nat,
                        ));
                    }
                }
                lemma_runs_consume(s, es, links, k + 1, x + 1, next, held2, cuts, binds);
            }
        }
    }
}

/// A sequence matches from a position exactly when the elements from there to the end of
/// the region fall into consecutive runs, one for each step: each run as long as the step's
/// quantifier says, each element of it accepted by the step with what was captured before,
/// and the two elements of a pair of delimiters linked with each other.
pub proof fn a_match_divides_the_region(
    s: SequenceModel,
    es: Seq<ElementModel>,
    links: Seq<Option<int>>,
    p: int,
)
    requires
        sequence_wf(s),
        0 <= p <= es.len(),
    ensures
        matches_at(s, es, links, p) <==> exists|cuts: Seq<int>, binds: Seq<BindsModel>|
            #[trigger] divides(s, es, links, p, cuts, binds),
{
    let none = Seq::<(Seq<char>, Seq<char>)>::empty();
    let held = Seq::<int>::empty();
    pairing_steps_nest(s.steps);
    if matches_at(s, es, links, p) {
        let (cuts, binds) = lemma_runs_of(s, es, links, 0, p, none, held);
        assert(divides(s, es, links, p, cuts, binds));
    }
    if exists|cuts: Seq<int>, binds: Seq<BindsModel>|
        #[trigger] divides(s, es, links, p, cuts, binds) {
        let (cuts, binds) = choose|cuts: Seq<int>, binds: Seq<BindsModel>|
            #[trigger] divides(s, es, links, p, cuts, binds);
        lemma_runs_consume(s, es, links, 0, p, none, held, cuts, binds);
    }
}

} // verus!
