//! Rules derived from the violations of other rules.

use vstd::prelude::*;

use crate::aggregate::{
    combined,
    derived,
    emitted,
    first_with,
    grouped,
    groups_at,
    groups_count_violations,
    groups_have_distinct_keys,
    groups_ordered,
    groups_where,
    has_key,
    key_of,
    lemma_has_slot,
    lemma_merged_keys,
    lemma_merged_ordered,
    lemma_union_keys,
    maps_of,
    merged,
    over_threshold,
    set_operations_act_on_keys,
    tally,
    thresholds_compare_group_sizes,
    union_of,
    GroupModel,
    Key,
};
use crate::laws::escape::{lemma_quiet, quiet};
use crate::matching::{silenced, ContextModel, ViolationModel};
use crate::order::{key_lt, key_order, key_order_is_total};
use crate::rules::{ComposeModel, CountOp, CountScope, KeyPart, RuleModel, SetOp};
use crate::sequence::{lemma_positions_increase, positions};

verus! {

/// Whether a violation says what a derived rule says, at the place of another violation.
pub open spec fn restates(w: ViolationModel, rule: RuleModel, v: ViolationModel) -> bool {
    &&& w.rule_id == rule.id
    &&& w.severity == rule.severity
    &&& w.description == rule.description
    &&& w.message == rule.message
    &&& w.file == v.file
    &&& w.span == v.span
    &&& w.matched == v.matched
}

/// Whether a violation is the first of several for which a condition holds.
pub open spec fn first_where(
    vs: Seq<ViolationModel>,
    f: spec_fn(ViolationModel) -> bool,
    v: ViolationModel,
) -> bool {
    exists|i: int|
        0 <= i < vs.len() && #[trigger] vs[i] == v && f(v) && forall|k: int|
            0 <= k < i ==> !f(#[trigger] vs[k])
}

proof fn lemma_first(vs: Seq<ViolationModel>, id: Seq<char>, key: Seq<KeyPart>, k: Key)
    ensures
        match first_with(vs, id, key, k) {
            Some(v) => first_where(
                vs,
                |w: ViolationModel| w.rule_id == id && key_of(w, key) == k,
                v,
            ),
            None => forall|i: int|
                0 <= i < vs.len() ==> !((#[trigger] vs[i]).rule_id == id && key_of(vs[i], key) == k),
        },
    decreases vs.len(),
{
    let f = |w: ViolationModel| w.rule_id == id && key_of(w, key) == k;
    if vs.len() > 0 {
        let init = vs.drop_last();
        lemma_first(init, id, key, k);
        match first_with(init, id, key, k) {
            Some(v) => {
                let i = choose|i: int|
                    0 <= i < init.len() && #[trigger] init[i] == v && f(v) && forall|k: int|
                        0 <= k < i ==> !f(#[trigger] init[k]);
                assert(vs[i] == v);
                assert forall|k: int| 0 <= k < i implies !f(#[trigger] vs[k]) by {
                    assert(init[k] == vs[k]);
                }
                assert(first_where(vs, f, v));
            },
            None => {
                assert forall|i: int| 0 <= i < init.len() implies !f(#[trigger] vs[i]) by {
                    assert(init[i] == vs[i]);
                }
                if f(vs.last()) {
                    assert(vs[vs.len() - 1] == vs.last());
                    assert(first_where(vs, f, vs.last()));
                } else {
                    assert forall|i: int| 0 <= i < vs.len() implies !f(#[trigger] vs[i]) by {}
                }
            },
        }
    }
}

// The positions of the groups that lead to a violation.
proof fn lemma_emitted_from(rule: RuleModel, gs: Seq<GroupModel>, ctx: ContextModel) -> (at: Seq<int>)
    ensures
        at.len() == emitted(rule, gs, ctx).len(),
        forall|i: int, j: int| 0 <= i < j < at.len() ==> #[trigger] at[i] < #[trigger] at[j],
        forall|i: int|
            0 <= i < at.len() ==> 0 <= #[trigger] at[i] < gs.len() && restates(
                emitted(rule, gs, ctx)[i],
                rule,
                gs[at[i]].rep,
            ) && !silenced(rule, gs[at[i]].rep.file, ctx),
        forall|k: int|
            0 <= k < gs.len() && !silenced(rule, (#[trigger] gs[k]).rep.file, ctx) ==> at.contains(k),
    decreases gs.len(),
{
    if gs.len() == 0 {
        Seq::empty()
    } else {
        let init = gs.drop_last();
        let bt = lemma_emitted_from(rule, init, ctx);
        let n = gs.len() - 1;
        if silenced(rule, gs.last().rep.file, ctx) {
            assert forall|k: int|
                0 <= k < gs.len() && !silenced(
                    rule,
                    (#[trigger] gs[k]).rep.file,
                    ctx,
                ) implies bt.contains(k) by {
                assert(init[k] == gs[k]);
            }
            bt
        } else {
            let at = bt.push(n);
            assert forall|k: int|
                0 <= k < gs.len() && !silenced(
                    rule,
                    (#[trigger] gs[k]).rep.file,
                    ctx,
                ) implies at.contains(k) by {
                if k < n {
                    assert(init[k] == gs[k]);
                    let i = bt.index_of(k);
                    assert(at[i] == k);
                } else {
                    assert(at[bt.len() as int] == k);
                }
            }
            at
        }
    }
}

// ---------------------------------------------------------------------------
// Counting
// ---------------------------------------------------------------------------

/// Whether two violations are counted together: per file, those in one file; per function,
/// those in one function of one file.
pub open spec fn together(scope: CountScope, v: ViolationModel, w: ViolationModel) -> bool {
    match scope {
        CountScope::File => v.file == w.file,
        CountScope::Function => v.file == w.file && v.matched.function == w.matched.function,
    }
}

/// How many violations of a rule are counted together with one.
pub open spec fn how_many(
    vs: Seq<ViolationModel>,
    id: Seq<char>,
    scope: CountScope,
    v: ViolationModel,
) -> nat
    decreases vs.len(),
{
    if vs.len() == 0 {
        0
    } else {
        how_many(vs.drop_last(), id, scope, v) + (if vs.last().rule_id == id && together(
            scope,
            vs.last(),
            v,
        ) {
            1nat
        } else {
            0
        })
    }
}

/// Whether a number compares with a threshold.
pub open spec fn meets(op: CountOp, x: int, n: int) -> bool {
    match op {
        CountOp::Gt => x > n,
        CountOp::Lt => x < n,
        CountOp::Ge => x >= n,
        CountOp::Le => x <= n,
        CountOp::Eq => x == n,
    }
}

proof fn lemma_together(scope: CountScope, v: ViolationModel, w: ViolationModel)
    ensures
        key_of(v, crate::aggregate::count_key(scope)) == key_of(
            w,
            crate::aggregate::count_key(scope),
        ) <==> together(scope, v, w),
{
    let key = crate::aggregate::count_key(scope);
    let a = key_of(v, key);
    let b = key_of(w, key);
    assert(a[0] == v.file && b[0] == w.file);
    if scope == CountScope::Function {
        assert(a[1] == v.matched.function && b[1] == w.matched.function);
    }
    if together(scope, v, w) {
        assert(a =~= b);
    }
}

proof fn lemma_how_many(vs: Seq<ViolationModel>, id: Seq<char>, scope: CountScope, v: ViolationModel)
    ensures
        tally(
            vs,
            id,
            crate::aggregate::count_key(scope),
            key_of(v, crate::aggregate::count_key(scope)),
        ) == how_many(vs, id, scope, v),
    decreases vs.len(),
{
    if vs.len() > 0 {
        lemma_how_many(vs.drop_last(), id, scope, v);
        lemma_together(scope, vs.last(), v);
    }
}

/// Whether a violation of a counting rule stands for a file, or a function of a file, in
/// which the number of violations of the counted rule compares true: it is reported at the
/// first of them, in a file where nothing keeps the rule quiet.
pub open spec fn fires(
    rule: RuleModel,
    vs: Seq<ViolationModel>,
    ctx: ContextModel,
    out: ViolationModel,
) -> bool {
    let c = rule.count->0;
    exists|v: ViolationModel|
        #[trigger] restates(out, rule, v) && first_where(
            vs,
            |w: ViolationModel| w.rule_id == c.rule && together(c.scope, w, v),
            v,
        ) && meets(c.op, how_many(vs, c.rule, c.scope, v) as int, c.n as int) && !quiet(
            rule,
            v.file,
            ctx,
        )
}

/// A counting rule fires for each file, or each function of a file, in which the number of
/// violations of the counted rule compares true, and for nothing else. It reports once there,
/// at the first of those violations, unless something keeps it quiet in that file.
pub proof fn counts_compare_per_place(rule: RuleModel, vs: Seq<ViolationModel>, ctx: ContextModel)
    requires
        rule.compose is None,
        rule.count is Some,
    ensures
        ({
            let c = rule.count->0;
            let out = derived(rule, vs, ctx);
            &&& forall|i: int|
                0 <= i < out.len() ==> fires(rule, vs, ctx, #[trigger] out[i])
            &&& forall|k: int|
                0 <= k < vs.len() && (#[trigger] vs[k]).rule_id == c.rule && meets(
                    c.op,
                    how_many(vs, c.rule, c.scope, vs[k]) as int,
                    c.n as int,
                ) && !quiet(rule, vs[k].file, ctx) ==> exists|i: int|
                    0 <= i < out.len() && together(c.scope, #[trigger] out[i], vs[k])
            &&& forall|i: int, j: int|
                0 <= i < j < out.len() ==> !together(
                    c.scope,
                    #[trigger] out[i],
                    #[trigger] out[j],
                )
        }),
{
    let c = rule.count->0;
    let key = crate::aggregate::count_key(c.scope);
    let gs = over_threshold(c, vs);
    let out = derived(rule, vs, ctx);
    let all = grouped(vs, c.rule, key);
    let fits = |g: GroupModel| crate::rules::count_compares(c.op, g.count as int, c.n as int);
    let at = lemma_emitted_from(rule, gs, ctx);
    let h = |i: int| fits(all[i]);
    let picked = positions(all.len() as int, h);
    assert(gs == groups_at(all, picked));
    lemma_positions_increase(all.len() as int, h);
    groups_have_distinct_keys(vs, c.rule, key);
    key_order_is_total();
    assert forall|a: int| 0 <= a < gs.len() implies {
        let g = #[trigger] gs[a];
        &&& first_where(
            vs,
            |w: ViolationModel| w.rule_id == c.rule && together(c.scope, w, g.rep),
            g.rep,
        )
        &&& meets(c.op, how_many(vs, c.rule, c.scope, g.rep) as int, c.n as int)
        &&& key_of(g.rep, key) == g.key
    } by {
        let g = gs[a];
        let b = picked[a];
        assert(0 <= b < all.len() && all[b] == g);
        crate::sequence::lemma_positions(all.len() as int, h, b);
        assert(picked.contains(b));
        assert(h(b));
        groups_count_violations(vs, c.rule, key, g.key);
        lemma_first(vs, c.rule, key, g.key);
        let f = |w: ViolationModel| w.rule_id == c.rule && key_of(w, key) == g.key;
        let f2 = |w: ViolationModel| w.rule_id == c.rule && together(c.scope, w, g.rep);
        let i = choose|i: int|
            0 <= i < vs.len() && #[trigger] vs[i] == g.rep && f(g.rep) && forall|k: int|
                0 <= k < i ==> !f(#[trigger] vs[k]);
        assert(vs[i] == g.rep);
        lemma_together(c.scope, g.rep, g.rep);
        assert forall|k: int| 0 <= k < i implies !f2(#[trigger] vs[k]) by {
            lemma_together(c.scope, vs[k], g.rep);
            assert(!f(vs[k]));
        }
        assert(first_where(vs, f2, g.rep));
        lemma_how_many(vs, c.rule, c.scope, g.rep);
    }
    assert forall|i: int| 0 <= i < out.len() implies fires(rule, vs, ctx, #[trigger] out[i]) by {
        let g = gs[at[i]];
        lemma_quiet(rule, g.rep.file, ctx);
        assert(restates(out[i], rule, g.rep));
    }
    assert forall|k: int|
        0 <= k < vs.len() && (#[trigger] vs[k]).rule_id == c.rule && meets(
            c.op,
            how_many(vs, c.rule, c.scope, vs[k]) as int,
            c.n as int,
        ) && !quiet(rule, vs[k].file, ctx) implies exists|i: int|
        0 <= i < out.len() && together(c.scope, #[trigger] out[i], vs[k]) by {
        let v = vs[k];
        let q = key_of(v, key);
        lemma_how_many(vs, c.rule, c.scope, v);
        groups_count_violations(vs, c.rule, key, q);
        lemma_first(vs, c.rule, key, q);
        assert(tally(vs, c.rule, key, q) > 0) by {
            if first_with(vs, c.rule, key, q) is None {
                assert(false);
            }
            lemma_tally_positive(vs, c.rule, key, k);
        }
        thresholds_compare_group_sizes(c, vs, q);
        assert(has_key(gs, q));
        let a = choose|a: int| 0 <= a < gs.len() && (#[trigger] gs[a]).key == q;
        lemma_together(c.scope, gs[a].rep, v);
        lemma_quiet(rule, gs[a].rep.file, ctx);
        assert(at.contains(a));
        let i = at.index_of(a);
        assert(restates(out[i], rule, gs[at[i]].rep));
        assert(together(c.scope, out[i], v));
    }
    assert forall|i: int, j: int| 0 <= i < j < out.len() implies !together(
        c.scope,
        #[trigger] out[i],
        #[trigger] out[j],
    ) by {
        let g = gs[at[i]];
        let k = gs[at[j]];
        thresholds_compare_group_sizes(c, vs, g.key);
        assert(key_lt(g.key, k.key));
        assert(!key_order()(g.key, g.key));
        lemma_together(c.scope, g.rep, k.rep);
        assert(restates(out[i], rule, g.rep) && restates(out[j], rule, k.rep));
    }
}

proof fn lemma_tally_positive(vs: Seq<ViolationModel>, id: Seq<char>, key: Seq<KeyPart>, k: int)
    requires
        0 <= k < vs.len(),
        vs[k].rule_id == id,
    ensures
        tally(vs, id, key, key_of(vs[k], key)) > 0,
    decreases vs.len(),
{
    if k < vs.len() - 1 {
        assert(vs.drop_last()[k] == vs[k]);
        lemma_tally_positive(vs.drop_last(), id, key, k);
    }
}

// ---------------------------------------------------------------------------
// Set operations
// ---------------------------------------------------------------------------

/// Whether two violations agree on every part of a key: on the file, on the function.
pub open spec fn agree(key: Seq<KeyPart>, v: ViolationModel, w: ViolationModel) -> bool {
    &&& key.contains(KeyPart::File) ==> v.file == w.file
    &&& key.contains(KeyPart::Function) ==> v.matched.function == w.matched.function
}

/// Whether a rule has a violation that agrees with one.
pub open spec fn has_one(
    vs: Seq<ViolationModel>,
    id: Seq<char>,
    key: Seq<KeyPart>,
    v: ViolationModel,
) -> bool {
    exists|k: int| 0 <= k < vs.len() && (#[trigger] vs[k]).rule_id == id && agree(key, vs[k], v)
}

/// Whether the key of a violation survives a set operation: an intersection asks for
/// violations of every rule, a union for those of any, a difference for those of the first
/// rule and none of the rest.
pub open spec fn survives(c: ComposeModel, vs: Seq<ViolationModel>, v: ViolationModel) -> bool {
    match c.op {
        SetOp::Union => exists|j: int|
            0 <= j < c.of.len() && has_one(vs, #[trigger] c.of[j], c.key, v),
        SetOp::Intersection => forall|j: int|
            0 <= j < c.of.len() ==> has_one(vs, #[trigger] c.of[j], c.key, v),
        SetOp::Difference => has_one(vs, c.of[0], c.key, v) && forall|j: int|
            1 <= j < c.of.len() ==> !has_one(vs, #[trigger] c.of[j], c.key, v),
    }
}

/// Whether a rule is the first of those that an operation names to have a violation that
/// agrees with one.
pub open spec fn first_named(
    c: ComposeModel,
    vs: Seq<ViolationModel>,
    v: ViolationModel,
    j: int,
) -> bool {
    &&& 0 <= j < c.of.len()
    &&& c.of[j] == v.rule_id
    &&& forall|k: int| 0 <= k < j ==> !has_one(vs, #[trigger] c.of[k], c.key, v)
}

/// Whether a violation of a composed rule stands for a key that survives: it is reported at
/// the first violation with that key of the first rule that the operation names and that has
/// one, in a file where nothing keeps the rule quiet.
pub open spec fn composes(
    rule: RuleModel,
    vs: Seq<ViolationModel>,
    ctx: ContextModel,
    out: ViolationModel,
) -> bool {
    let c = rule.compose->0;
    exists|v: ViolationModel|
        #[trigger] restates(out, rule, v) && first_where(
            vs,
            |w: ViolationModel| w.rule_id == v.rule_id && agree(c.key, w, v),
            v,
        ) && (exists|j: int| #[trigger] first_named(c, vs, v, j)) && (c.op != SetOp::Union
            ==> v.rule_id == c.of[0]) && survives(c, vs, v) && !quiet(rule, v.file, ctx)
}

proof fn lemma_agree(key: Seq<KeyPart>, v: ViolationModel, w: ViolationModel)
    ensures
        key_of(v, key) == key_of(w, key) <==> agree(key, v, w),
{
    let a = key_of(v, key);
    let b = key_of(w, key);
    if a == b {
        if key.contains(KeyPart::File) {
            let i = key.index_of(KeyPart::File);
            assert(key[i] == KeyPart::File);
            assert(a[i] == v.file && b[i] == w.file);
        }
        if key.contains(KeyPart::Function) {
            let i = key.index_of(KeyPart::Function);
            assert(key[i] == KeyPart::Function);
            assert(a[i] == v.matched.function && b[i] == w.matched.function);
        }
    }
    if agree(key, v, w) {
        assert forall|i: int| 0 <= i < key.len() implies a[i] == b[i] by {
            assert(key.contains(key[i]));
            match key[i] {
                KeyPart::File => {},
                KeyPart::Function => {},
            }
        }
        assert(a =~= b);
    }
}

proof fn lemma_has_one(vs: Seq<ViolationModel>, id: Seq<char>, key: Seq<KeyPart>, v: ViolationModel)
    ensures
        has_key(grouped(vs, id, key), key_of(v, key)) <==> has_one(vs, id, key, v),
{
    let q = key_of(v, key);
    groups_count_violations(vs, id, key, q);
    lemma_first(vs, id, key, q);
    if has_one(vs, id, key, v) {
        let k = choose|k: int|
            0 <= k < vs.len() && (#[trigger] vs[k]).rule_id == id && agree(key, vs[k], v);
        lemma_agree(key, vs[k], v);
        lemma_tally_positive(vs, id, key, k);
    }
    if tally(vs, id, key, q) > 0 {
        lemma_tally_some(vs, id, key, q);
        let k = choose|k: int|
            0 <= k < vs.len() && (#[trigger] vs[k]).rule_id == id && key_of(vs[k], key) == q;
        lemma_agree(key, vs[k], v);
    }
}

proof fn lemma_tally_some(vs: Seq<ViolationModel>, id: Seq<char>, key: Seq<KeyPart>, q: Key)
    requires
        tally(vs, id, key, q) > 0,
    ensures
        exists|k: int|
            0 <= k < vs.len() && (#[trigger] vs[k]).rule_id == id && key_of(vs[k], key) == q,
    decreases vs.len(),
{
    if vs.last().rule_id == id && key_of(vs.last(), key) == q {
        assert(vs[vs.len() - 1].rule_id == id);
    } else {
        let init = vs.drop_last();
        lemma_tally_some(init, id, key, q);
        let k = choose|k: int|
            0 <= k < init.len() && (#[trigger] init[k]).rule_id == id && key_of(init[k], key) == q;
        assert(vs[k].rule_id == id);
    }
}

// Whether a list is the first that holds a key, and holds a group with it.
spec fn first_holds(maps: Seq<Seq<GroupModel>>, g: GroupModel, j: int) -> bool {
    &&& 0 <= j < maps.len()
    &&& maps[j].contains(g)
    &&& forall|k: int| 0 <= k < j ==> !has_key(#[trigger] maps[k], g.key)
}

proof fn lemma_merged_from(a: Seq<GroupModel>, b: Seq<GroupModel>, g: GroupModel)
    requires
        merged(a, b).contains(g),
        groups_ordered(a),
    ensures
        a.contains(g) || (b.contains(g) && !has_key(a, g.key)),
    decreases b.len(),
{
    if b.len() > 0 {
        let m = merged(a, b.drop_last());
        let r = merged(a, b);
        let k = r.index_of(g);
        assert(r[k] == g);
        lemma_merged_ordered(a, b.drop_last());
        lemma_has_slot(m, b.last().key);
        lemma_merged_keys(a, b.drop_last(), b.last().key);
        if g == b.last() && !has_key(m, g.key) {
            assert(b[b.len() - 1] == g);
        } else {
            let at = crate::aggregate::slot(m, b.last().key, 0);
            lemma_slot_within(m, b.last().key, 0);
            if crate::aggregate::has_slot(m, b.last().key) {
                assert(m[k] == g);
            } else if k < at {
                assert(m[k] == g);
            } else {
                assert(r[at] == b.last());
                assert(k > at);
                assert(m[k - 1] == g);
            }
            assert(m.contains(g));
            lemma_merged_from(a, b.drop_last(), g);
            if b.drop_last().contains(g) {
                let i = b.drop_last().index_of(g);
                assert(b[i] == g);
            }
        }
    }
}

proof fn lemma_slot_within(s: Seq<GroupModel>, k: Key, i: int)
    requires
        0 <= i <= s.len(),
    ensures
        i <= crate::aggregate::slot(s, k, i) <= s.len(),
    decreases s.len() - i,
{
    if i < s.len() {
        lemma_slot_within(s, k, i + 1);
    }
}

proof fn lemma_union_from(maps: Seq<Seq<GroupModel>>, g: GroupModel)
    requires
        union_of(maps).contains(g),
        forall|j: int| 0 <= j < maps.len() ==> groups_ordered(#[trigger] maps[j]),
    ensures
        exists|j: int| first_holds(maps, g, j),
    decreases maps.len(),
{
    if maps.len() > 0 {
        let init = maps.drop_last();
        let last = maps.len() - 1;
        assert forall|j: int| 0 <= j < init.len() implies groups_ordered(#[trigger] init[j]) by {
            assert(init[j] == maps[j]);
        }
        lemma_union_keys(init, g.key);
        lemma_merged_from(union_of(init), maps.last(), g);
        if union_of(init).contains(g) {
            lemma_union_from(init, g);
            let j = choose|j: int| first_holds(init, g, j);
            assert forall|k: int| 0 <= k < j implies !has_key(#[trigger] maps[k], g.key) by {
                assert(init[k] == maps[k]);
            }
            assert(maps[j] == init[j]);
            assert(first_holds(maps, g, j));
        } else {
            assert forall|k: int| 0 <= k < last implies !has_key(#[trigger] maps[k], g.key) by {
                assert(init[k] == maps[k]);
            }
            assert(first_holds(maps, g, last));
        }
    }
}

proof fn lemma_where_from(s: Seq<GroupModel>, f: spec_fn(GroupModel) -> bool, g: GroupModel)
    requires
        groups_where(s, f).contains(g),
    ensures
        s.contains(g),
{
    let h = |i: int| f(s[i]);
    let at = positions(s.len() as int, h);
    let r = groups_where(s, f);
    assert(r == groups_at(s, at));
    lemma_positions_increase(s.len() as int, h);
    let k = r.index_of(g);
    assert(r[k] == g);
    assert(s[at[k]] == g);
}

proof fn lemma_survives(c: ComposeModel, vs: Seq<ViolationModel>, v: ViolationModel)
    requires
        c.of.len() > 0,
    ensures
        has_key(combined(c.op, maps_of(c, vs)), key_of(v, c.key)) <==> survives(c, vs, v),
        groups_ordered(combined(c.op, maps_of(c, vs))),
{
    let maps = maps_of(c, vs);
    let q = key_of(v, c.key);
    assert forall|j: int| 0 <= j < maps.len() implies groups_ordered(#[trigger] maps[j]) by {
        groups_have_distinct_keys(vs, c.of[j], c.key);
    }
    set_operations_act_on_keys(c.op, maps, q);
    assert forall|j: int| 0 <= j < maps.len() implies has_key(#[trigger] maps[j], q) == has_one(
        vs,
        c.of[j],
        c.key,
        v,
    ) by {
        lemma_has_one(vs, c.of[j], c.key, v);
    }
    match c.op {
        SetOp::Union => {
            if survives(c, vs, v) {
                let j = choose|j: int|
                    0 <= j < c.of.len() && has_one(vs, #[trigger] c.of[j], c.key, v);
                assert(has_key(maps[j], q));
            }
            if exists|j: int| 0 <= j < maps.len() && has_key(#[trigger] maps[j], q) {
                let j = choose|j: int| 0 <= j < maps.len() && has_key(#[trigger] maps[j], q);
                assert(has_one(vs, c.of[j], c.key, v));
            }
        },
        SetOp::Intersection => {
            if survives(c, vs, v) {
                assert forall|j: int| 0 <= j < maps.len() implies has_key(#[trigger] maps[j], q) by {
                    assert(has_one(vs, c.of[j], c.key, v));
                }
            }
            if forall|j: int| 0 <= j < maps.len() ==> has_key(#[trigger] maps[j], q) {
                assert forall|j: int| 0 <= j < c.of.len() implies has_one(
                    vs,
                    #[trigger] c.of[j],
                    c.key,
                    v,
                ) by {
                    assert(has_key(maps[j], q));
                }
            }
        },
        SetOp::Difference => {
            assert(has_key(maps[0], q) == has_one(vs, c.of[0], c.key, v));
            if survives(c, vs, v) {
                assert forall|j: int| 1 <= j < maps.len() implies !has_key(
                    #[trigger] maps[j],
                    q,
                ) by {
                    assert(!has_one(vs, c.of[j], c.key, v));
                }
            }
            if forall|j: int| 1 <= j < maps.len() ==> !has_key(#[trigger] maps[j], q) {
                assert forall|j: int| 1 <= j < c.of.len() implies !has_one(
                    vs,
                    #[trigger] c.of[j],
                    c.key,
                    v,
                ) by {
                    assert(!has_key(maps[j], q));
                }
            }
        },
    }
}

// A group that a set operation leaves shows the first violation with its key of the first of
// its rules that has one.
proof fn lemma_left(c: ComposeModel, vs: Seq<ViolationModel>, g: GroupModel)
    requires
        c.of.len() > 0,
        combined(c.op, maps_of(c, vs)).contains(g),
    ensures
        vs.contains(g.rep),
        first_where(
            vs,
            |w: ViolationModel| w.rule_id == g.rep.rule_id && agree(c.key, w, g.rep),
            g.rep,
        ),
        exists|j: int| #[trigger] first_named(c, vs, g.rep, j),
        c.op != SetOp::Union ==> g.rep.rule_id == c.of[0],
        key_of(g.rep, c.key) == g.key,
{
    let maps = maps_of(c, vs);
    match c.op {
        SetOp::Union => {
            assert forall|j: int| 0 <= j < maps.len() implies groups_ordered(#[trigger] maps[j]) by {
                groups_have_distinct_keys(vs, c.of[j], c.key);
            }
            lemma_union_from(maps, g);
        },
        SetOp::Intersection => {
            lemma_where_from(
                maps[0],
                |g: GroupModel| crate::aggregate::in_all_others(maps, g.key),
                g,
            );
        },
        SetOp::Difference => {
            lemma_where_from(
                maps[0],
                |g: GroupModel| crate::aggregate::in_no_other(maps, g.key),
                g,
            );
        },
    }
    let j = if c.op == SetOp::Union {
        choose|j: int| first_holds(maps, g, j)
    } else {
        0
    };
    let id = c.of[j];
    let all = grouped(vs, id, c.key);
    assert(maps[j] == all);
    let i = all.index_of(g);
    assert(all[i] == g);
    groups_count_violations(vs, id, c.key, g.key);
    lemma_first(vs, id, c.key, g.key);
    let f = |w: ViolationModel| w.rule_id == id && key_of(w, c.key) == g.key;
    let k = choose|k: int|
        0 <= k < vs.len() && #[trigger] vs[k] == g.rep && f(g.rep) && forall|m: int|
            0 <= m < k ==> !f(#[trigger] vs[m]);
    assert(vs[k] == g.rep);
    assert forall|m: int| 0 <= m < k implies !((#[trigger] vs[m]).rule_id == g.rep.rule_id && agree(
        c.key,
        vs[m],
        g.rep,
    )) by {
        assert(!f(vs[m]));
        lemma_agree(c.key, vs[m], g.rep);
    }
    lemma_agree(c.key, g.rep, g.rep);
    assert forall|m: int| 0 <= m < j implies !has_one(vs, #[trigger] c.of[m], c.key, g.rep) by {
        assert(maps[m] == grouped(vs, c.of[m], c.key));
        lemma_has_one(vs, c.of[m], c.key, g.rep);
    }
    assert(first_named(c, vs, g.rep, j));
}

/// A composed rule reports once for each key that survives its set operation, and nothing
/// else: for each key of a violation, where something reported agrees with it on the file
/// and the function, as far as the rule is keyed by them. Only where something keeps the rule
/// quiet in a file is it silent there.
pub proof fn set_operations_keep_keys(rule: RuleModel, vs: Seq<ViolationModel>, ctx: ContextModel)
    requires
        rule.compose is Some,
        rule.compose->0.of.len() > 0,
    ensures
        ({
            let c = rule.compose->0;
            let out = derived(rule, vs, ctx);
            &&& forall|i: int|
                0 <= i < out.len() ==> composes(rule, vs, ctx, #[trigger] out[i])
            &&& forall|k: int|
                0 <= k < vs.len() && survives(c, vs, #[trigger] vs[k]) && (forall|m: int|
                    0 <= m < vs.len() && agree(c.key, #[trigger] vs[m], vs[k]) ==> !quiet(
                        rule,
                        vs[m].file,
                        ctx,
                    )) ==> exists|i: int|
                    0 <= i < out.len() && agree(c.key, #[trigger] out[i], vs[k])
            &&& forall|i: int, j: int|
                0 <= i < j < out.len() ==> !agree(c.key, #[trigger] out[i], #[trigger] out[j])
        }),
{
    let c = rule.compose->0;
    let gs = combined(c.op, maps_of(c, vs));
    let out = derived(rule, vs, ctx);
    let at = lemma_emitted_from(rule, gs, ctx);
    key_order_is_total();
    assert forall|i: int| 0 <= i < out.len() implies composes(rule, vs, ctx, #[trigger] out[i]) by {
        let g = gs[at[i]];
        assert(gs.contains(g));
        lemma_left(c, vs, g);
        lemma_survives(c, vs, g.rep);
        assert(has_key(gs, g.key));
        lemma_quiet(rule, g.rep.file, ctx);
        assert(restates(out[i], rule, g.rep));
    }
    assert forall|k: int|
        0 <= k < vs.len() && survives(c, vs, #[trigger] vs[k]) && (forall|m: int|
            0 <= m < vs.len() && agree(c.key, #[trigger] vs[m], vs[k]) ==> !quiet(
                rule,
                vs[m].file,
                ctx,
            )) implies exists|i: int|
        0 <= i < out.len() && agree(c.key, #[trigger] out[i], vs[k]) by {
        let v = vs[k];
        lemma_survives(c, vs, v);
        let a = choose|a: int| 0 <= a < gs.len() && (#[trigger] gs[a]).key == key_of(v, c.key);
        let g = gs[a];
        assert(gs.contains(g));
        lemma_left(c, vs, g);
        lemma_agree(c.key, g.rep, v);
        let m = vs.index_of(g.rep);
        assert(vs[m] == g.rep);
        lemma_quiet(rule, g.rep.file, ctx);
        assert(at.contains(a));
        let i = at.index_of(a);
        assert(restates(out[i], rule, gs[at[i]].rep));
        assert(agree(c.key, out[i], v));
    }
    assert forall|i: int, j: int| 0 <= i < j < out.len() implies !agree(
        c.key,
        #[trigger] out[i],
        #[trigger] out[j],
    ) by {
        let g = gs[at[i]];
        let k = gs[at[j]];
        assert(gs.contains(g) && gs.contains(k));
        lemma_left(c, vs, g);
        lemma_left(c, vs, k);
        lemma_survives(c, vs, g.rep);
        assert(key_lt(g.key, k.key));
        assert(!key_order()(g.key, g.key));
        lemma_agree(c.key, g.rep, k.rep);
        assert(restates(out[i], rule, g.rep) && restates(out[j], rule, k.rep));
    }
}


} // verus!
