//! A whole run: which violations are reported, and in what order.

use vstd::prelude::*;

use crate::aggregate::{
    derived,
    derived_violations,
    earlier,
    path_lt,
    place_of,
    place_order,
    place_order_is_total,
    primary_violations,
    run_of,
    sorted,
    sorted_is_in_order,
    sorted_keeps_violations,
};
use crate::laws::lists::concat_holds_all;
use crate::matching::{rule_violations, ContextModel, ViolationModel};
use crate::order::{lemma_lex_skip, text_lt};
use crate::outside::{path_parts, PartModel};
use crate::rules::RuleModel;
use crate::token::StreamModel;

verus! {

/// Whether a rule is derived from the violations of others.
pub open spec fn is_derived(r: RuleModel) -> bool {
    r.compose is Some || r.count is Some
}

/// Whether a rule that is not derived from others reports a violation.
pub open spec fn found(
    rules: Seq<RuleModel>,
    streams: Seq<StreamModel>,
    ctx: ContextModel,
    v: ViolationModel,
) -> bool {
    exists|i: int|
        0 <= i < rules.len() && !is_derived(#[trigger] rules[i]) && rule_violations(
            rules[i],
            streams,
            ctx,
        ).contains(v)
}

/// A run reports what each rule reports: first the rules that are not derived from others,
/// and then, of what those found, the derived ones. It reports nothing else.
pub proof fn a_run_reports_what_each_rule_reports(
    rules: Seq<RuleModel>,
    streams: Seq<StreamModel>,
    ctx: ContextModel,
    v: ViolationModel,
)
    ensures
        ({
            let first = primary_violations(rules, streams, ctx);
            &&& first.contains(v) <==> found(rules, streams, ctx, v)
            &&& run_of(rules, streams, ctx).contains(v) <==> found(rules, streams, ctx, v)
                || exists|i: int|
                0 <= i < rules.len() && is_derived(rules[i]) && #[trigger] derived(
                    rules[i],
                    first,
                    ctx,
                ).contains(v)
        }),
{
    broadcast use vstd::seq_lib::group_to_multiset_ensures;

    let first = primary_violations(rules, streams, ctx);
    let more = derived_violations(rules, first, ctx);
    let all = first + more;
    sorted_keeps_violations(all);
    assert(run_of(rules, streams, ctx) == sorted(all));
    assert(sorted(all).to_multiset().contains(v) == all.to_multiset().contains(v));
    assert(sorted(all).contains(v) == all.contains(v));
    let f = |r: RuleModel|
        if crate::rules::aggregates(r) {
            Seq::empty()
        } else {
            rule_violations(r, streams, ctx)
        };
    let lists = rules.map_values(f);
    concat_holds_all(lists, v);
    if first.contains(v) {
        let i = choose|i: int| 0 <= i < lists.len() && (#[trigger] lists[i]).contains(v);
        assert(!is_derived(rules[i]));
    }
    if found(rules, streams, ctx, v) {
        let i = choose|i: int|
            0 <= i < rules.len() && !is_derived(#[trigger] rules[i]) && rule_violations(
                rules[i],
                streams,
                ctx,
            ).contains(v);
        assert(lists[i].contains(v));
    }
    let g = |r: RuleModel| derived(r, first, ctx);
    let rest = rules.map_values(g);
    concat_holds_all(rest, v);
    if all.contains(v) {
        let k = all.index_of(v);
        assert(all[k] == v);
        if k < first.len() {
            assert(first[k] == v);
        } else {
            assert(more[k - first.len()] == v);
            let i = choose|i: int| 0 <= i < rest.len() && (#[trigger] rest[i]).contains(v);
            assert(derived(rules[i], first, ctx).contains(v));
        }
    }
    if first.contains(v) {
        let k = first.index_of(v);
        assert(all[k] == v);
    }
    if exists|i: int|
        0 <= i < rules.len() && is_derived(rules[i]) && #[trigger] derived(
            rules[i],
            first,
            ctx,
        ).contains(v) {
        let i = choose|i: int|
            0 <= i < rules.len() && is_derived(rules[i]) && #[trigger] derived(
                rules[i],
                first,
                ctx,
            ).contains(v);
        assert(rest[i].contains(v));
        let k = more.index_of(v);
        assert(more[k] == v);
        assert(all[first.len() + k] == v);
    }
}

/// Whether a text stands before another: where they first differ, by the code point, and a
/// text before any that it begins.
pub open spec fn text_before(a: Seq<char>, b: Seq<char>) -> bool {
    exists|k: int|
        0 <= k <= a.len() && #[trigger] a.take(k) == b.take(k) && k < b.len() && (k == a.len() || (
        k < a.len() && a[k] < b[k]))
}

proof fn lemma_text_before(a: Seq<char>, b: Seq<char>)
    ensures
        text_lt(a, b) ==> text_before(a, b),
    decreases a.len(),
{
    if text_lt(a, b) {
        if a.len() == 0 || a[0] != b[0] {
            assert(a.take(0) =~= b.take(0));
        } else {
            let a1 = a.drop_first();
            let b1 = b.drop_first();
            lemma_text_before(a1, b1);
            let k = choose|k: int|
                0 <= k <= a1.len() && #[trigger] a1.take(k) == b1.take(k) && k < b1.len() && (k
                    == a1.len() || (k < a1.len() && a1[k] < b1[k]));
            assert forall|i: int| 0 <= i < k + 1 implies a[i] == b[i] by {
                if i > 0 {
                    assert(a1.take(k)[i - 1] == b1.take(k)[i - 1]);
                }
            }
            assert(a.take(k + 1) =~= b.take(k + 1));
        }
    }
}

/// Rules and files add up: one more rule adds what it reports to what the others report, and
/// one more file adds what the rule reports in it. A run reports all of it, each violation as
/// often as it was found.
pub proof fn rules_and_files_add_up(
    rules: Seq<RuleModel>,
    r: RuleModel,
    streams: Seq<StreamModel>,
    s: StreamModel,
    vs: Seq<ViolationModel>,
    ctx: ContextModel,
)
    ensures
        primary_violations(rules.push(r), streams, ctx) == primary_violations(rules, streams, ctx) + (
        if is_derived(r) {
            Seq::empty()
        } else {
            rule_violations(r, streams, ctx)
        }),
        derived_violations(rules.push(r), vs, ctx) == derived_violations(rules, vs, ctx) + derived(
            r,
            vs,
            ctx,
        ),
        !is_derived(r) ==> derived(r, vs, ctx).len() == 0,
        rule_violations(r, streams.push(s), ctx) == rule_violations(r, streams, ctx)
            + crate::matching::stream_violations(r, s, ctx),
        primary_violations(Seq::empty(), streams, ctx).len() == 0,
        derived_violations(Seq::empty(), vs, ctx).len() == 0,
        rule_violations(r, Seq::empty(), ctx).len() == 0,
        run_of(rules, streams, ctx).to_multiset() == (primary_violations(rules, streams, ctx)
            + derived_violations(
            rules,
            primary_violations(rules, streams, ctx),
            ctx,
        )).to_multiset(),
{
    let f = |r: RuleModel|
        if crate::rules::aggregates(r) {
            Seq::empty()
        } else {
            rule_violations(r, streams, ctx)
        };
    let a = rules.push(r).map_values(f);
    assert(a.drop_last() =~= rules.map_values(f));
    assert(a.last() == f(r));
    let g = |r: RuleModel| derived(r, vs, ctx);
    let b = rules.push(r).map_values(g);
    assert(b.drop_last() =~= rules.map_values(g));
    let h = |s: StreamModel| crate::matching::stream_violations(r, s, ctx);
    let c = streams.push(s).map_values(h);
    assert(c.drop_last() =~= streams.map_values(h));
    let primary = primary_violations(rules, streams, ctx);
    sorted_keeps_violations(primary + derived_violations(rules, primary, ctx));
}

/// Whether two paths first differ at a component.
pub open spec fn differ_at(a: Seq<PartModel>, b: Seq<PartModel>, k: int) -> bool {
    &&& 0 <= k < a.len()
    &&& k < b.len()
    &&& a[k] != b[k]
    &&& forall|i: int| 0 <= i < k ==> #[trigger] a[i] == b[i]
}

/// Whether a path stands at or before another: where they first differ in the names of two
/// files or directories, by these names, and a path before any that lies below it. The root
/// stands before `.`, this before `..`, and this before any name.
pub open spec fn path_not_after(a: Seq<PartModel>, b: Seq<PartModel>) -> bool {
    &&& forall|k: int| #[trigger]
        differ_at(a, b, k) && a[k] is Name && b[k] is Name ==> text_before(a[k]->Name_0, b[k]->Name_0)
    &&& forall|k: int| #[trigger]
        differ_at(a, b, k) ==> {
            &&& a[k] is Name ==> b[k] is Name
            &&& a[k] is Parent ==> b[k] is Name
            &&& a[k] is Here ==> b[k] is Parent || b[k] is Name
            &&& a[k] is Root ==> b[k] is Here || b[k] is Parent || b[k] is Name
        }
    &&& !(b.len() < a.len() && a.take(b.len() as int) == b)
}

proof fn lemma_path(a: Seq<PartModel>, b: Seq<PartModel>)
    requires
        path_lt(a, b),
    ensures
        path_not_after(a, b),
{
    let lt = crate::aggregate::part_order();
    assert forall|k: int| #[trigger]
        differ_at(a, b, k) && a[k] is Name && b[k] is Name implies text_before(
        a[k]->Name_0,
        b[k]->Name_0,
    ) by {
        lemma_lex_skip(a, b, k, lt);
        assert(a.skip(k)[0] == a[k] && b.skip(k)[0] == b[k]);
        assert(lt(a[k], b[k]));
        lemma_text_before(a[k]->Name_0, b[k]->Name_0);
    }
    assert forall|k: int| #[trigger] differ_at(a, b, k) implies {
        &&& a[k] is Name ==> b[k] is Name
        &&& a[k] is Parent ==> b[k] is Name
        &&& a[k] is Here ==> b[k] is Parent || b[k] is Name
        &&& a[k] is Root ==> b[k] is Here || b[k] is Parent || b[k] is Name
    } by {
        lemma_lex_skip(a, b, k, lt);
        assert(a.skip(k)[0] == a[k] && b.skip(k)[0] == b[k]);
        assert(lt(a[k], b[k]));
    }
    if b.len() < a.len() && a.take(b.len() as int) == b {
        let k = b.len() as int;
        assert forall|i: int| 0 <= i < k implies a[i] == b[i] by {
            assert(a.take(k)[i] == b[i]);
        }
        lemma_lex_skip(a, b, k, lt);
        assert(b.skip(k).len() == 0);
    }
}

/// Violations are reported in the order of their paths; in one file by line, on one line by
/// column, and at one place by the rule's id.
pub proof fn reports_are_ordered(
    rules: Seq<RuleModel>,
    streams: Seq<StreamModel>,
    ctx: ContextModel,
    i: int,
    j: int,
)
    requires
        0 <= i < j < run_of(rules, streams, ctx).len(),
    ensures
        ({
            let v = run_of(rules, streams, ctx)[i];
            let w = run_of(rules, streams, ctx)[j];
            let a = path_parts(v.file);
            let b = path_parts(w.file);
            &&& path_not_after(a, b)
            &&& a == b ==> v.span.start_line <= w.span.start_line
            &&& a == b && v.span.start_line == w.span.start_line ==> v.span.start_col
                <= w.span.start_col
            &&& a == b && v.span.start_line == w.span.start_line && v.span.start_col
                == w.span.start_col ==> v.rule_id == w.rule_id || text_before(v.rule_id, w.rule_id)
        }),
{
    let first = primary_violations(rules, streams, ctx);
    let all = first + derived_violations(rules, first, ctx);
    sorted_is_in_order(all);
    let out = sorted(all);
    let v = out[i];
    let w = out[j];
    assert(!earlier(w, v));
    place_order_is_total();
    let lt = place_order();
    let x = place_of(v);
    let y = place_of(w);
    assert(x == y || lt(x, y) || lt(y, x));
    if x.path != y.path {
        lemma_path(x.path, y.path);
    } else {
        lemma_text_before(v.rule_id, w.rule_id);
    }
}

} // verus!
