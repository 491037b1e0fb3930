//! Rules over other rules' violations (`compose` and `count`), and running a whole
//! set of rules.

use vstd::prelude::*;

use crate::compile::{concat, rules_wf};
use crate::matching::{
    is_silenced,
    rule_violations,
    run_rule,
    silenced,
    stream_models,
    violation,
    ContextModel,
    MatchContext,
    Matched,
    Violation,
    ViolationModel,
};
use crate::order::{compare_key, compare_text, key_lt, key_order, key_order_is_total, lex_lt, strict_total, text_lt, text_order, text_order_is_total};
use crate::outside::{path_components, path_parts, Part, PartModel};
use crate::rules::{
    aggregates,
    count_compares,
    CompiledCompose,
    CompiledCount,
    CompiledRule,
    ComposeModel,
    CountModel,
    CountScope,
    KeyPart,
    RuleModel,
    SetOp,
};
use crate::schema::Severity;
use crate::sequence::positions;
use crate::text::{copy_text, same, texts, views, Order};
use crate::token::{StreamModel, TokenStream};

verus! {

// ---------------------------------------------------------------------------
// Groups
// ---------------------------------------------------------------------------

/// A key that violations are grouped by.
pub type Key = Seq<Seq<char>>;

/// The violations with one key: the first of them, and how many they are.
pub struct GroupModel {
    pub key: Key,
    pub rep: ViolationModel,
    pub count: nat,
}

/// The key of a violation.
pub open spec fn key_of(v: ViolationModel, key: Seq<KeyPart>) -> Key {
    key.map_values(
        |p: KeyPart|
            match p {
                KeyPart::File => v.file,
                KeyPart::Function => v.matched.function,
            },
    )
}

/// The first position from `i` on whose key is not less than `k`.
pub open spec fn slot(s: Seq<GroupModel>, k: Key, i: int) -> int
    decreases s.len() - i,
{
    if i < 0 || i >= s.len() {
        s.len() as int
    } else if key_lt(s[i].key, k) {
        slot(s, k, i + 1)
    } else {
        i
    }
}

/// Whether the group with a key is there.
pub open spec fn has_slot(s: Seq<GroupModel>, k: Key) -> bool {
    slot(s, k, 0) < s.len() && s[slot(s, k, 0)].key == k
}

/// Adds one violation to the groups, which are in the order of their keys.
pub open spec fn add_to_groups(s: Seq<GroupModel>, k: Key, v: ViolationModel) -> Seq<GroupModel> {
    let i = slot(s, k, 0);
    if has_slot(s, k) {
        s.update(i, GroupModel { count: s[i].count + 1, ..s[i] })
    } else {
        s.insert(i, GroupModel { key: k, rep: v, count: 1 })
    }
}

/// Adds a group, unless one with its key is there.
pub open spec fn keep_group(s: Seq<GroupModel>, g: GroupModel) -> Seq<GroupModel> {
    if has_slot(s, g.key) {
        s
    } else {
        s.insert(slot(s, g.key, 0), g)
    }
}

/// The violations of one rule in groups, in the order of their keys.
pub open spec fn grouped(vs: Seq<ViolationModel>, id: Seq<char>, key: Seq<KeyPart>) -> Seq<
    GroupModel,
>
    decreases vs.len(),
{
    if vs.len() == 0 {
        Seq::empty()
    } else {
        let before = grouped(vs.drop_last(), id, key);
        let v = vs.last();
        if v.rule_id == id {
            add_to_groups(before, key_of(v, key), v)
        } else {
            before
        }
    }
}

/// The groups of one list and those of another whose keys are new.
pub open spec fn merged(a: Seq<GroupModel>, b: Seq<GroupModel>) -> Seq<GroupModel>
    decreases b.len(),
{
    if b.len() == 0 {
        a
    } else {
        keep_group(merged(a, b.drop_last()), b.last())
    }
}

/// Whether a group has a key.
pub open spec fn has_key(s: Seq<GroupModel>, k: Key) -> bool {
    exists|i: int| 0 <= i < s.len() && (#[trigger] s[i]).key == k
}

/// The keys are in strictly increasing order.
pub open spec fn groups_ordered(s: Seq<GroupModel>) -> bool {
    forall|i: int, j: int| 0 <= i < j < s.len() ==> key_lt((#[trigger] s[i]).key, (#[trigger] s[j]).key)
}

proof fn lemma_slot(s: Seq<GroupModel>, k: Key, i: int, r: int)
    requires
        0 <= i <= r <= s.len(),
        forall|j: int| i <= j < r ==> key_lt((#[trigger] s[j]).key, k),
        r < s.len() ==> !key_lt(s[r].key, k),
    ensures
        slot(s, k, i) == r,
    decreases r - i,
{
    if i < r {
        assert(key_lt(s[i].key, k));
        lemma_slot(s, k, i + 1, r);
    }
}

proof fn lemma_slot_bounds(s: Seq<GroupModel>, k: Key, i: int)
    requires
        0 <= i <= s.len(),
    ensures
        i <= slot(s, k, i) <= s.len(),
        forall|j: int| i <= j < slot(s, k, i) ==> key_lt((#[trigger] s[j]).key, k),
        slot(s, k, i) < s.len() ==> !key_lt(s[slot(s, k, i)].key, k),
    decreases s.len() - i,
{
    if i < s.len() && key_lt(s[i].key, k) {
        lemma_slot_bounds(s, k, i + 1);
        assert forall|j: int| i <= j < slot(s, k, i) implies key_lt((#[trigger] s[j]).key, k) by {
            if j > i {
                assert(i + 1 <= j);
            }
        }
    }
}

/// In ordered groups, the group of a key stands at its slot.
pub proof fn lemma_has_slot(s: Seq<GroupModel>, k: Key)
    requires
        groups_ordered(s),
    ensures
        has_slot(s, k) == has_key(s, k),
{
    key_order_is_total();
    lemma_slot_bounds(s, k, 0);
    let r = slot(s, k, 0);
    if has_key(s, k) {
        let i = choose|i: int| 0 <= i < s.len() && (#[trigger] s[i]).key == k;
        assert(!key_order()(k, k));
        if i < r {
            assert(key_lt(s[i].key, k));
        } else if i > r {
            assert(key_lt(s[r].key, s[i].key));
        }
    }
}

proof fn lemma_insert_ordered(s: Seq<GroupModel>, g: GroupModel)
    requires
        groups_ordered(s),
        !has_slot(s, g.key),
    ensures
        groups_ordered(s.insert(slot(s, g.key, 0), g)),
{
    key_order_is_total();
    let k = g.key;
    lemma_slot_bounds(s, k, 0);
    lemma_has_slot(s, k);
    let r = slot(s, k, 0);
    let t = s.insert(r, g);
    assert forall|i: int, j: int| 0 <= i < j < t.len() implies key_lt(
        (#[trigger] t[i]).key,
        (#[trigger] t[j]).key,
    ) by {
        let lt = key_order();
        if i < r {
            assert(t[i] == s[i]);
        } else if i > r {
            assert(t[i] == s[i - 1]);
        }
        if j < r {
            assert(t[j] == s[j]);
        } else if j > r {
            assert(t[j] == s[j - 1]);
        }
        if i < r && j == r {
            assert(key_lt(s[i].key, k));
        } else if i == r && j > r {
            assert(s[r].key != k);
            assert(lt(s[r].key, k) || lt(k, s[r].key));
            if j - 1 > r {
                assert(lt(k, s[r].key) && lt(s[r].key, s[j - 1].key));
            }
        } else if i < r && j > r {
            assert(key_lt(s[i].key, s[j - 1].key));
        } else if i > r {
            assert(key_lt(s[i - 1].key, s[j - 1].key));
        }
    }
}

proof fn lemma_add_ordered(s: Seq<GroupModel>, k: Key, v: ViolationModel)
    requires
        groups_ordered(s),
    ensures
        groups_ordered(add_to_groups(s, k, v)),
{
    lemma_slot_bounds(s, k, 0);
    let t = add_to_groups(s, k, v);
    if has_slot(s, k) {
        assert forall|i: int, j: int| 0 <= i < j < t.len() implies key_lt(
            (#[trigger] t[i]).key,
            (#[trigger] t[j]).key,
        ) by {
            assert(t[i].key == s[i].key && t[j].key == s[j].key);
        }
    } else {
        lemma_insert_ordered(s, GroupModel { key: k, rep: v, count: 1 });
    }
}

/// Groups come in strictly increasing order of their keys, so no key occurs twice.
pub proof fn groups_have_distinct_keys(vs: Seq<ViolationModel>, id: Seq<char>, key: Seq<KeyPart>)
    ensures
        groups_ordered(grouped(vs, id, key)),
    decreases vs.len(),
{
    if vs.len() > 0 {
        groups_have_distinct_keys(vs.drop_last(), id, key);
        lemma_add_ordered(grouped(vs.drop_last(), id, key), key_of(vs.last(), key), vs.last());
    }
}

/// Merging keeps the order of the keys.
pub proof fn lemma_merged_ordered(a: Seq<GroupModel>, b: Seq<GroupModel>)
    requires
        groups_ordered(a),
    ensures
        groups_ordered(merged(a, b)),
    decreases b.len(),
{
    if b.len() > 0 {
        lemma_merged_ordered(a, b.drop_last());
        let m = merged(a, b.drop_last());
        if !has_slot(m, b.last().key) {
            lemma_insert_ordered(m, b.last());
        }
    }
}

struct Group {
    key: Vec<String>,
    rep: usize,
    count: u64,
}

spec fn group_model(g: Group, vs: Seq<ViolationModel>) -> GroupModel {
    GroupModel { key: texts(g.key@), rep: vs[g.rep as int], count: g.count as nat }
}

spec fn group_models(gs: Seq<Group>, vs: Seq<ViolationModel>) -> Seq<GroupModel> {
    gs.map_values(|g: Group| group_model(g, vs))
}

// Representatives are among the violations, and no group counts more than `n`.
spec fn groups_wf(gs: Seq<Group>, vs: Seq<ViolationModel>, n: int) -> bool {
    &&& groups_ordered(group_models(gs, vs))
    &&& forall|i: int| 0 <= i < gs.len() ==> (#[trigger] gs[i]).rep < vs.len() && gs[i].count <= n
}

fn find_slot(gs: &Vec<Group>, key: &Vec<String>, vs: Ghost<Seq<ViolationModel>>) -> (r: (usize, bool))
    requires
        groups_ordered(group_models(gs@, vs@)),
    ensures
        r.0 == slot(group_models(gs@, vs@), texts(key@), 0),
        r.0 <= gs@.len(),
        r.1 == has_slot(group_models(gs@, vs@), texts(key@)),
        r.1 ==> r.0 < gs@.len(),
{
    let ghost s = group_models(gs@, vs@);
    let ghost k = texts(key@);
    let mut lo: usize = 0;
    let mut hi: usize = gs.len();
    proof {
        key_order_is_total();
    }
    while lo < hi
        invariant
            lo <= hi <= gs@.len(),
            s == group_models(gs@, vs@),
            k == texts(key@),
            groups_ordered(s),
            strict_total(key_order()),
            forall|j: int| 0 <= j < lo ==> key_lt((#[trigger] s[j]).key, k),
            forall|j: int| hi <= j < s.len() ==> !key_lt((#[trigger] s[j]).key, k),
        decreases hi - lo,
    {
        let mid: usize = lo + (hi - lo) / 2;
        assert(s[mid as int].key == texts(gs@[mid as int].key@));
        match compare_key(&gs[mid].key, key) {
            Order::Less => {
                assert forall|j: int| 0 <= j < mid + 1 implies key_lt((#[trigger] s[j]).key, k) by {
                    if j < mid {
                        assert(key_order()(s[j].key, s[mid as int].key));
                        assert(key_order()(s[mid as int].key, k));
                    }
                }
                lo = mid + 1;
            },
            _ => {
                assert forall|j: int| mid <= j < s.len() implies !key_lt((#[trigger] s[j]).key, k) by {
                    let m = s[mid as int].key;
                    let lt = key_order();
                    assert(m == k || lt(k, m));
                    if lt(s[j].key, k) {
                        if j > mid {
                            assert(lt(m, s[j].key));
                            assert(lt(m, k));
                        }
                        if m != k {
                            assert(lt(k, k));
                        }
                        assert(!lt(k, k));
                    }
                }
                hi = mid;
            },
        }
    }
    proof {
        lemma_slot(s, k, 0, lo as int);
    }
    if lo < gs.len() {
        assert(s[lo as int].key == texts(gs@[lo as int].key@));
        match compare_key(&gs[lo].key, key) {
            Order::Equal => (lo, true),
            Order::Less => {
                assert(!key_order()(k, k));
                (lo, false)
            },
            Order::Greater => {
                assert(!key_order()(k, k));
                (lo, false)
            },
        }
    } else {
        (lo, false)
    }
}

fn violation_key(v: &Violation, key: &Vec<KeyPart>) -> (r: Vec<String>)
    ensures
        texts(r@) == key_of(v@, key@),
{
    let mut out: Vec<String> = Vec::new();
    let mut i: usize = 0;
    while i < key.len()
        invariant
            i <= key@.len(),
            out@.len() == i,
            forall|j: int| 0 <= j < i ==> (#[trigger] out@[j])@ == key_of(v@, key@)[j],
        decreases key@.len() - i,
    {
        match key[i] {
            KeyPart::File => {
                out.push(v.file.clone());
            },
            KeyPart::Function => {
                out.push(v.matched.function.clone());
            },
        }
        i += 1;
    }
    assert(texts(out@) =~= key_of(v@, key@));
    out
}

fn group_by(vs: &Vec<Violation>, id: &str, key: &Vec<KeyPart>) -> (r: Vec<Group>)
    ensures
        group_models(r@, views(vs@)) == grouped(views(vs@), id@, key@),
        groups_wf(r@, views(vs@), vs@.len() as int),
{
    let ghost models = views(vs@);
    let mut gs: Vec<Group> = Vec::new();
    let mut i: usize = 0;
    assert(models.take(0) =~= Seq::<ViolationModel>::empty());
    assert(group_models(gs@, models) =~= Seq::<GroupModel>::empty());
    while i < vs.len()
        invariant
            i <= vs@.len(),
            models == views(vs@),
            group_models(gs@, models) == grouped(models.take(i as int), id@, key@),
            groups_wf(gs@, models, i as int),
        decreases vs@.len() - i,
    {
        assert(models.take(i + 1).drop_last() =~= models.take(i as int));
        assert(models.take(i + 1).last() == vs@[i as int]@);
        if same(vs[i].rule_id.as_str(), id) {
            let k = violation_key(&vs[i], key);
            let ghost s = group_models(gs@, models);
            let ghost before = gs@;
            proof {
                lemma_add_ordered(s, texts(k@), models[i as int]);
            }
            let (at, there) = find_slot(&gs, &k, Ghost(models));
            if there {
                let n: u64 = gs[at].count;
                let g = Group { key: gs[at].key.clone(), rep: gs[at].rep, count: n + 1 };
                gs[at] = g;
                assert(group_models(gs@, models) =~= add_to_groups(s, texts(k@), models[i as int]));
            } else {
                let g = Group { key: k, rep: i, count: 1 };
                gs.insert(at, g);
                assert(group_models(gs@, models) =~= add_to_groups(s, texts(k@), models[i as int]));
                assert forall|j: int| 0 <= j < gs@.len() implies (#[trigger] gs@[j]).rep
                    < models.len() && gs@[j].count <= i + 1 by {
                    if j < at {
                        assert(gs@[j] == before[j]);
                    } else if j > at {
                        assert(gs@[j] == before[j - 1]);
                    }
                }
            }
        }
        i += 1;
    }
    assert(models.take(i as int) =~= models);
    gs
}

// ---------------------------------------------------------------------------
// Set operations and thresholds
// ---------------------------------------------------------------------------

/// The groups at given positions.
pub open spec fn groups_at(s: Seq<GroupModel>, at: Seq<int>) -> Seq<GroupModel> {
    at.map_values(|i: int| s[i])
}

/// The groups below position `n` for which a condition holds.
pub open spec fn groups_below(s: Seq<GroupModel>, f: spec_fn(GroupModel) -> bool, n: int) -> Seq<
    GroupModel,
> {
    groups_at(s, positions(n, |i: int| f(s[i])))
}

/// The groups for which a condition holds.
pub open spec fn groups_where(s: Seq<GroupModel>, f: spec_fn(GroupModel) -> bool) -> Seq<GroupModel> {
    groups_below(s, f, s.len() as int)
}

/// The groups of several lists; of those with the same key, the first.
pub open spec fn union_of(maps: Seq<Seq<GroupModel>>) -> Seq<GroupModel>
    decreases maps.len(),
{
    if maps.len() == 0 {
        Seq::empty()
    } else {
        merged(union_of(maps.drop_last()), maps.last())
    }
}

/// Whether a key is in each of several lists but the first.
pub open spec fn in_all_others(maps: Seq<Seq<GroupModel>>, k: Key) -> bool {
    forall|j: int| 1 <= j < maps.len() ==> has_slot(#[trigger] maps[j], k)
}

/// Whether a key is in none of several lists but the first.
pub open spec fn in_no_other(maps: Seq<Seq<GroupModel>>, k: Key) -> bool {
    forall|j: int| 1 <= j < maps.len() ==> !has_slot(#[trigger] maps[j], k)
}

/// The groups that a set operation leaves.
pub open spec fn combined(op: SetOp, maps: Seq<Seq<GroupModel>>) -> Seq<GroupModel> {
    if maps.len() == 0 {
        Seq::empty()
    } else {
        match op {
            SetOp::Union => union_of(maps),
            SetOp::Intersection => groups_where(
                maps[0],
                |g: GroupModel| in_all_others(maps, g.key),
            ),
            SetOp::Difference => groups_where(maps[0], |g: GroupModel| in_no_other(maps, g.key)),
        }
    }
}

/// The groups of the rules that a set operation refers to.
pub open spec fn maps_of(c: ComposeModel, vs: Seq<ViolationModel>) -> Seq<Seq<GroupModel>> {
    c.of.map_values(|id: Seq<char>| grouped(vs, id, c.key))
}

/// The key that a threshold groups by.
pub open spec fn count_key(scope: CountScope) -> Seq<KeyPart> {
    match scope {
        CountScope::File => seq![KeyPart::File],
        CountScope::Function => seq![KeyPart::File, KeyPart::Function],
    }
}

/// The groups whose size compares with the threshold.
pub open spec fn over_threshold(c: CountModel, vs: Seq<ViolationModel>) -> Seq<GroupModel> {
    groups_where(
        grouped(vs, c.rule, count_key(c.scope)),
        |g: GroupModel| count_compares(c.op, g.count as int, c.n as int),
    )
}

/// One violation for each group, unless the rule is silenced in its file.
pub open spec fn emitted(rule: RuleModel, gs: Seq<GroupModel>, ctx: ContextModel) -> Seq<
    ViolationModel,
>
    decreases gs.len(),
{
    if gs.len() == 0 {
        Seq::empty()
    } else {
        let before = emitted(rule, gs.drop_last(), ctx);
        let rep = gs.last().rep;
        if silenced(rule, rep.file, ctx) {
            before
        } else {
            before.push(violation(rule, rep.file, rep.span, rep.matched))
        }
    }
}

/// The violations of a derived rule, given those of the primary rules.
pub open spec fn derived(rule: RuleModel, vs: Seq<ViolationModel>, ctx: ContextModel) -> Seq<
    ViolationModel,
> {
    match rule.compose {
        Some(c) => emitted(rule, combined(c.op, maps_of(c, vs)), ctx),
        None => match rule.count {
            Some(c) => emitted(rule, over_threshold(c, vs), ctx),
            None => Seq::empty(),
        },
    }
}

fn copy_matched(m: &Matched) -> (r: Matched)
    ensures
        r@ == m@,
{
    Matched {
        node_kind: m.node_kind.clone(),
        class: m.class.clone(),
        text: m.text.clone(),
        named: m.named,
        function: m.function.clone(),
    }
}

fn aggregate_violation(rule: &CompiledRule, rep: &Violation) -> (r: Violation)
    ensures
        r@ == violation(rule@, rep@.file, rep@.span, rep@.matched),
{
    Violation {
        rule_id: rule.id.clone(),
        severity: rule.severity,
        description: copy_text(&rule.description),
        message: copy_text(&rule.message),
        file: rep.file.clone(),
        span: rep.span,
        matched: copy_matched(&rep.matched),
    }
}

fn emit_all(
    rule: &CompiledRule,
    vs: &Vec<Violation>,
    gs: &Vec<Group>,
    ctx: &MatchContext,
    out: &mut Vec<Violation>,
)
    requires
        forall|i: int| 0 <= i < gs@.len() ==> (#[trigger] gs@[i]).rep < vs@.len(),
    ensures
        views(final(out)@) == views(old(out)@) + emitted(
            rule@,
            group_models(gs@, views(vs@)),
            ctx@,
        ),
{
    let ghost first = views(out@);
    let ghost models = group_models(gs@, views(vs@));
    let mut i: usize = 0;
    assert(models.take(0) =~= Seq::<GroupModel>::empty());
    assert(first + Seq::<ViolationModel>::empty() =~= first);
    while i < gs.len()
        invariant
            i <= gs@.len(),
            models == group_models(gs@, views(vs@)),
            forall|i: int| 0 <= i < gs@.len() ==> (#[trigger] gs@[i]).rep < vs@.len(),
            views(out@) == first + emitted(rule@, models.take(i as int), ctx@),
        decreases gs@.len() - i,
    {
        let rep = &vs[gs[i].rep];
        assert(models.take(i + 1).drop_last() =~= models.take(i as int));
        assert(models.take(i + 1).last().rep == rep@);
        let ghost before = out@;
        let ghost done = emitted(rule@, models.take(i as int), ctx@);
        if !is_silenced(rule, rep.file.as_str(), ctx) {
            let v = aggregate_violation(rule, rep);
            out.push(v);
            assert(views(out@) =~= views(before).push(v@));
            assert((first + done).push(v@) =~= first + done.push(v@));
        }
        i += 1;
    }
    assert(models.take(i as int) =~= models);
}

fn copy_group(g: &Group) -> (r: Group)
    ensures
        texts(r.key@) == texts(g.key@),
        r.rep == g.rep,
        r.count == g.count,
{
    Group { key: g.key.clone(), rep: g.rep, count: g.count }
}

fn merge_into(a: Vec<Group>, b: &Vec<Group>, vs: Ghost<Seq<ViolationModel>>, n: Ghost<int>) -> (r: Vec<
    Group,
>)
    requires
        groups_wf(a@, vs@, n@),
        groups_wf(b@, vs@, n@),
    ensures
        groups_wf(r@, vs@, n@),
        group_models(r@, vs@) == merged(group_models(a@, vs@), group_models(b@, vs@)),
{
    let ghost ma = group_models(a@, vs@);
    let ghost mb = group_models(b@, vs@);
    let mut out = a;
    let mut i: usize = 0;
    assert(mb.take(0) =~= Seq::<GroupModel>::empty());
    while i < b.len()
        invariant
            i <= b@.len(),
            mb == group_models(b@, vs@),
            groups_wf(out@, vs@, n@),
            groups_wf(b@, vs@, n@),
            group_models(out@, vs@) == merged(ma, mb.take(i as int)),
        decreases b@.len() - i,
    {
        let ghost s = group_models(out@, vs@);
        let ghost before = out@;
        assert(mb.take(i + 1).drop_last() =~= mb.take(i as int));
        assert(mb.take(i + 1).last() == group_model(b@[i as int], vs@));
        let (at, there) = find_slot(&out, &b[i].key, vs);
        if !there {
            proof {
                lemma_insert_ordered(s, mb[i as int]);
            }
            let g = copy_group(&b[i]);
            out.insert(at, g);
            assert(group_models(out@, vs@) =~= s.insert(at as int, mb[i as int]));
            assert forall|j: int| 0 <= j < out@.len() implies (#[trigger] out@[j]).rep < vs@.len()
                && out@[j].count <= n@ by {
                if j < at {
                    assert(out@[j] == before[j]);
                } else if j > at {
                    assert(out@[j] == before[j - 1]);
                } else {
                    assert(b@[i as int].count <= n@);
                }
            }
        }
        i += 1;
    }
    assert(mb.take(i as int) =~= mb);
    out
}

// The models of several lists of groups.
spec fn all_models(maps: Seq<Vec<Group>>, vs: Seq<ViolationModel>) -> Seq<Seq<GroupModel>> {
    maps.map_values(|m: Vec<Group>| group_models(m@, vs))
}

spec fn all_wf(maps: Seq<Vec<Group>>, vs: Seq<ViolationModel>, n: int) -> bool {
    forall|i: int| 0 <= i < maps.len() ==> groups_wf((#[trigger] maps[i])@, vs, n)
}

// Whether the key is in each (or in none) of the lists but the first.
fn others_agree(
    maps: &Vec<Vec<Group>>,
    key: &Vec<String>,
    want: bool,
    vs: Ghost<Seq<ViolationModel>>,
    n: Ghost<int>,
) -> (r: bool)
    requires
        all_wf(maps@, vs@, n@),
        maps@.len() > 0,
    ensures
        want ==> r == in_all_others(all_models(maps@, vs@), texts(key@)),
        !want ==> r == in_no_other(all_models(maps@, vs@), texts(key@)),
{
    let ghost models = all_models(maps@, vs@);
    let mut j: usize = 1;
    while j < maps.len()
        invariant
            1 <= j <= maps@.len(),
            all_wf(maps@, vs@, n@),
            models == all_models(maps@, vs@),
            forall|k: int| 1 <= k < j ==> has_slot(#[trigger] models[k], texts(key@)) == want,
        decreases maps@.len() - j,
    {
        assert(models[j as int] == group_models(maps@[j as int]@, vs@));
        let (at, there) = find_slot(&maps[j], key, vs);
        if there != want {
            return false;
        }
        j += 1;
    }
    true
}

fn keep_agreeing(
    maps: &Vec<Vec<Group>>,
    want: bool,
    vs: Ghost<Seq<ViolationModel>>,
    n: Ghost<int>,
) -> (r: Vec<Group>)
    requires
        all_wf(maps@, vs@, n@),
        maps@.len() > 0,
    ensures
        want ==> group_models(r@, vs@) == combined(SetOp::Intersection, all_models(maps@, vs@)),
        !want ==> group_models(r@, vs@) == combined(SetOp::Difference, all_models(maps@, vs@)),
        forall|i: int| 0 <= i < r@.len() ==> (#[trigger] r@[i]).rep < vs@.len(),
{
    let ghost models = all_models(maps@, vs@);
    let ghost s = models[0];
    let ghost cond: spec_fn(GroupModel) -> bool = if want {
        |g: GroupModel| in_all_others(models, g.key)
    } else {
        |g: GroupModel| in_no_other(models, g.key)
    };
    let ghost f = |i: int| cond(s[i]);
    let mut out: Vec<Group> = Vec::new();
    let mut i: usize = 0;
    let first = &maps[0];
    assert(s == group_models(first@, vs@));
    assert(groups_wf(maps@[0]@, vs@, n@));
    assert(group_models(out@, vs@) =~= groups_at(s, positions(0, f)));
    while i < first.len()
        invariant
            i <= first@.len(),
            maps@.len() > 0,
            first@ == maps@[0]@,
            all_wf(maps@, vs@, n@),
            groups_wf(first@, vs@, n@),
            models == all_models(maps@, vs@),
            s == group_models(first@, vs@),
            want ==> cond == (|g: GroupModel| in_all_others(models, g.key)),
            !want ==> cond == (|g: GroupModel| in_no_other(models, g.key)),
            f == (|i: int| cond(s[i])),
            group_models(out@, vs@) == groups_at(s, positions(i as int, f)),
            forall|k: int| 0 <= k < out@.len() ==> (#[trigger] out@[k]).rep < vs@.len(),
        decreases first@.len() - i,
    {
        let ghost before = out@;
        assert(s[i as int] == group_model(first@[i as int], vs@));
        let keep = others_agree(maps, &first[i].key, want, vs, n);
        assert(keep == f(i as int));
        if keep {
            let g = copy_group(&first[i]);
            out.push(g);
            assert(group_model(g, vs@) == s[i as int]);
            assert(group_models(out@, vs@) =~= group_models(before, vs@).push(s[i as int]));
            assert(groups_at(s, positions(i as int, f).push(i as int)) =~= groups_at(
                s,
                positions(i as int, f),
            ).push(s[i as int]));
        }
        i += 1;
    }
    assert(group_models(out@, vs@) == groups_where(s, cond));
    out
}

fn union_groups(maps: &Vec<Vec<Group>>, vs: Ghost<Seq<ViolationModel>>, n: Ghost<int>) -> (r: Vec<
    Group,
>)
    requires
        all_wf(maps@, vs@, n@),
    ensures
        groups_wf(r@, vs@, n@),
        group_models(r@, vs@) == union_of(all_models(maps@, vs@)),
{
    let ghost models = all_models(maps@, vs@);
    let mut out: Vec<Group> = Vec::new();
    let mut i: usize = 0;
    assert(models.take(0) =~= Seq::<Seq<GroupModel>>::empty());
    assert(group_models(out@, vs@) =~= Seq::<GroupModel>::empty());
    while i < maps.len()
        invariant
            i <= maps@.len(),
            all_wf(maps@, vs@, n@),
            models == all_models(maps@, vs@),
            groups_wf(out@, vs@, n@),
            group_models(out@, vs@) == union_of(models.take(i as int)),
        decreases maps@.len() - i,
    {
        assert(models.take(i + 1).drop_last() =~= models.take(i as int));
        assert(models.take(i + 1).last() == group_models(maps@[i as int]@, vs@));
        assert(groups_wf(maps@[i as int]@, vs@, n@));
        out = merge_into(out, &maps[i], vs, n);
        i += 1;
    }
    assert(models.take(i as int) =~= models);
    out
}

fn run_compose(
    rule: &CompiledRule,
    comp: &CompiledCompose,
    vs: &Vec<Violation>,
    ctx: &MatchContext,
    out: &mut Vec<Violation>,
)
    ensures
        views(final(out)@) == views(old(out)@) + emitted(
            rule@,
            combined(comp@.op, maps_of(comp@, views(vs@))),
            ctx@,
        ),
{
    let ghost models = views(vs@);
    let ghost n = vs@.len() as int;
    let mut maps: Vec<Vec<Group>> = Vec::new();
    let mut i: usize = 0;
    while i < comp.of.len()
        invariant
            i <= comp.of@.len(),
            models == views(vs@),
            n == vs@.len(),
            maps@.len() == i,
            all_wf(maps@, models, n),
            forall|k: int|
                0 <= k < i ==> group_models((#[trigger] maps@[k])@, models) == grouped(
                    models,
                    comp.of@[k]@,
                    comp.key@,
                ),
        decreases comp.of@.len() - i,
    {
        maps.push(group_by(vs, comp.of[i].as_str(), &comp.key));
        i += 1;
    }
    assert(all_models(maps@, models) =~= maps_of(comp@, models));
    if maps.len() == 0 {
        assert(out@ == old(out)@);
        assert(views(out@) + Seq::<ViolationModel>::empty() =~= views(out@));
        return ;
    }
    let groups = match comp.op {
        SetOp::Union => union_groups(&maps, Ghost(models), Ghost(n)),
        SetOp::Intersection => keep_agreeing(&maps, true, Ghost(models), Ghost(n)),
        SetOp::Difference => keep_agreeing(&maps, false, Ghost(models), Ghost(n)),
    };
    emit_all(rule, vs, &groups, ctx, out);
}

fn run_count(
    rule: &CompiledRule,
    cnt: &CompiledCount,
    vs: &Vec<Violation>,
    ctx: &MatchContext,
    out: &mut Vec<Violation>,
)
    ensures
        views(final(out)@) == views(old(out)@) + emitted(
            rule@,
            over_threshold(cnt@, views(vs@)),
            ctx@,
        ),
{
    let ghost models = views(vs@);
    let mut key: Vec<KeyPart> = Vec::new();
    key.push(KeyPart::File);
    if cnt.scope == CountScope::Function {
        key.push(KeyPart::Function);
    }
    assert(key@ =~= count_key(cnt.scope));
    let gs = group_by(vs, cnt.rule.as_str(), &key);
    let ghost s = group_models(gs@, models);
    let ghost cond = |g: GroupModel| count_compares(cnt@.op, g.count as int, cnt@.n as int);
    let ghost f = |i: int| cond(s[i]);
    let mut kept: Vec<Group> = Vec::new();
    let mut i: usize = 0;
    assert(group_models(kept@, models) =~= groups_at(s, positions(0, f)));
    while i < gs.len()
        invariant
            i <= gs@.len(),
            models == views(vs@),
            s == group_models(gs@, models),
            groups_wf(gs@, models, vs@.len() as int),
            cond == (|g: GroupModel| count_compares(cnt@.op, g.count as int, cnt@.n as int)),
            f == (|i: int| cond(s[i])),
            group_models(kept@, models) == groups_at(s, positions(i as int, f)),
            forall|k: int| 0 <= k < kept@.len() ==> (#[trigger] kept@[k]).rep < vs@.len(),
        decreases gs@.len() - i,
    {
        let ghost before = kept@;
        assert(s[i as int] == group_model(gs@[i as int], models));
        let keep = cnt.op.test(gs[i].count, cnt.n);
        assert(keep == f(i as int));
        if keep {
            let g = copy_group(&gs[i]);
            kept.push(g);
            assert(group_model(g, models) == s[i as int]);
            assert(group_models(kept@, models) =~= group_models(before, models).push(s[i as int]));
            assert(groups_at(s, positions(i as int, f).push(i as int)) =~= groups_at(
                s,
                positions(i as int, f),
            ).push(s[i as int]));
        }
        i += 1;
    }
    assert(group_models(kept@, models) == groups_where(s, cond));
    emit_all(rule, vs, &kept, ctx, out);
}

// ---------------------------------------------------------------------------
// The order of violations
// ---------------------------------------------------------------------------

/// The rank of a kind of path component.
pub open spec fn part_rank(p: PartModel) -> int {
    match p {
        PartModel::Verbatim(_) => 0,
        PartModel::VerbatimShare(_, _) => 1,
        PartModel::VerbatimDrive(_) => 2,
        PartModel::Device(_) => 3,
        PartModel::Share(_, _) => 4,
        PartModel::Drive(_) => 5,
        PartModel::Root => 6,
        PartModel::Here => 7,
        PartModel::Parent => 8,
        PartModel::Name(_) => 9,
    }
}

/// The letter of the drive that a path component names, or zero.
pub open spec fn part_drive(p: PartModel) -> int {
    match p {
        PartModel::VerbatimDrive(d) => d as int,
        PartModel::Drive(d) => d as int,
        _ => 0,
    }
}

/// The text of a path component, or the server that it names.
pub open spec fn part_text(p: PartModel) -> Seq<char> {
    match p {
        PartModel::Verbatim(s) => s,
        PartModel::VerbatimShare(s, _) => s,
        PartModel::Device(s) => s,
        PartModel::Share(s, _) => s,
        PartModel::Name(s) => s,
        _ => Seq::empty(),
    }
}

/// The share that a path component names.
pub open spec fn part_share(p: PartModel) -> Seq<char> {
    match p {
        PartModel::VerbatimShare(_, t) => t,
        PartModel::Share(_, t) => t,
        _ => Seq::empty(),
    }
}

/// The order of path components: by kind, then by what they hold.
pub open spec fn part_lt(a: PartModel, b: PartModel) -> bool {
    if part_rank(a) != part_rank(b) {
        part_rank(a) < part_rank(b)
    } else if part_drive(a) != part_drive(b) {
        part_drive(a) < part_drive(b)
    } else if part_text(a) != part_text(b) {
        text_lt(part_text(a), part_text(b))
    } else {
        text_lt(part_share(a), part_share(b))
    }
}

/// The order of path components, as a function value.
pub open spec fn part_order() -> spec_fn(PartModel, PartModel) -> bool {
    |a: PartModel, b: PartModel| part_lt(a, b)
}

/// The order of paths: component by component.
pub open spec fn path_lt(a: Seq<PartModel>, b: Seq<PartModel>) -> bool {
    lex_lt(a, b, part_order())
}

/// The order of paths, as a function value.
pub open spec fn path_order() -> spec_fn(Seq<PartModel>, Seq<PartModel>) -> bool {
    |a: Seq<PartModel>, b: Seq<PartModel>| path_lt(a, b)
}

/// Paths are totally ordered by their components.
pub proof fn path_order_is_total()
    ensures
        strict_total(part_order()),
        strict_total(path_order()),
{
    text_order_is_total();
    let lt = part_order();
    let tl = text_order();
    assert forall|x: PartModel| !#[trigger] lt(x, x) by {
        assert(!tl(part_share(x), part_share(x)));
    }
    assert forall|x: PartModel, y: PartModel| x == y || #[trigger] lt(x, y) || lt(y, x) by {
        let a = part_text(x);
        let b = part_text(y);
        assert(a == b || tl(a, b) || tl(b, a));
        let c = part_share(x);
        let d = part_share(y);
        assert(c == d || tl(c, d) || tl(d, c));
    }
    assert forall|x: PartModel, y: PartModel, z: PartModel| #[trigger]
        lt(x, y) && #[trigger] lt(y, z) implies lt(x, z) by {
        let (a, b, c) = (part_text(x), part_text(y), part_text(z));
        if tl(a, b) && tl(b, c) {
            assert(tl(a, c));
            assert(!tl(a, a));
        }
        let (a, b, c) = (part_share(x), part_share(y), part_share(z));
        if tl(a, b) && tl(b, c) {
            assert(tl(a, c));
        }
    }
    crate::order::lex_is_strict_total(part_order());
    let lex = |a: Seq<PartModel>, b: Seq<PartModel>| lex_lt(a, b, part_order());
    assert(lex =~= path_order());
}

/// What violations are ordered by: the path, the line, the column, the rule.
pub struct Place {
    pub path: Seq<PartModel>,
    pub line: nat,
    pub col: nat,
    pub rule: Seq<char>,
}

/// The place of a violation.
pub open spec fn place_of(v: ViolationModel) -> Place {
    Place {
        path: path_parts(v.file),
        line: v.span.start_line as nat,
        col: v.span.start_col as nat,
        rule: v.rule_id,
    }
}

/// The order of places.
pub open spec fn place_lt(a: Place, b: Place) -> bool {
    if a.path != b.path {
        path_lt(a.path, b.path)
    } else if a.line != b.line {
        a.line < b.line
    } else if a.col != b.col {
        a.col < b.col
    } else {
        text_lt(a.rule, b.rule)
    }
}

/// The order of places, as a function value.
pub open spec fn place_order() -> spec_fn(Place, Place) -> bool {
    |a: Place, b: Place| place_lt(a, b)
}

/// Places are totally ordered.
pub proof fn place_order_is_total()
    ensures
        strict_total(place_order()),
{
    path_order_is_total();
    text_order_is_total();
    let lt = place_order();
    let pl = path_order();
    let tl = text_order();
    assert forall|x: Place| !#[trigger] lt(x, x) by {
        assert(!tl(x.rule, x.rule));
    }
    assert forall|x: Place, y: Place| x == y || #[trigger] lt(x, y) || lt(y, x) by {
        assert(x.path == y.path || pl(x.path, y.path) || pl(y.path, x.path));
        assert(x.rule == y.rule || tl(x.rule, y.rule) || tl(y.rule, x.rule));
    }
    assert forall|x: Place, y: Place, z: Place| #[trigger] lt(x, y) && #[trigger] lt(
        y,
        z,
    ) implies lt(x, z) by {
        assert(!pl(x.path, x.path));
        if x.path != y.path && y.path != z.path {
            assert(pl(x.path, y.path) && pl(y.path, z.path));
        }
        if tl(x.rule, y.rule) && tl(y.rule, z.rule) {
            assert(tl(x.rule, z.rule));
        }
    }
}

/// Whether one violation stands before another by its place.
pub open spec fn earlier(a: ViolationModel, b: ViolationModel) -> bool {
    place_lt(place_of(a), place_of(b))
}

/// The first position from `i` on that holds a violation later than `v`.
pub open spec fn upper(s: Seq<ViolationModel>, v: ViolationModel, i: int) -> int
    decreases s.len() - i,
{
    if i < 0 || i >= s.len() {
        s.len() as int
    } else if earlier(v, s[i]) {
        i
    } else {
        upper(s, v, i + 1)
    }
}

/// The violations of a list, ordered by place. Those at one place stay in the order
/// that they had.
pub open spec fn sorted(s: Seq<ViolationModel>) -> Seq<ViolationModel>
    decreases s.len(),
{
    if s.len() == 0 {
        Seq::empty()
    } else {
        let before = sorted(s.drop_last());
        before.insert(upper(before, s.last(), 0), s.last())
    }
}

/// No violation stands after one that is later.
pub open spec fn in_order(s: Seq<ViolationModel>) -> bool {
    forall|i: int, j: int| 0 <= i < j < s.len() ==> !earlier(#[trigger] s[j], #[trigger] s[i])
}

proof fn lemma_upper(s: Seq<ViolationModel>, v: ViolationModel, i: int, r: int)
    requires
        0 <= i <= r <= s.len(),
        forall|j: int| i <= j < r ==> !earlier(v, #[trigger] s[j]),
        r < s.len() ==> earlier(v, s[r]),
    ensures
        upper(s, v, i) == r,
    decreases r - i,
{
    if i < r {
        assert(!earlier(v, s[i]));
        lemma_upper(s, v, i + 1, r);
    }
}

proof fn lemma_upper_bounds(s: Seq<ViolationModel>, v: ViolationModel, i: int)
    requires
        0 <= i <= s.len(),
    ensures
        i <= upper(s, v, i) <= s.len(),
        forall|j: int| i <= j < upper(s, v, i) ==> !earlier(v, #[trigger] s[j]),
        upper(s, v, i) < s.len() ==> earlier(v, s[upper(s, v, i)]),
    decreases s.len() - i,
{
    if i < s.len() && !earlier(v, s[i]) {
        lemma_upper_bounds(s, v, i + 1);
        assert forall|j: int| i <= j < upper(s, v, i) implies !earlier(v, #[trigger] s[j]) by {
            if j > i {
                assert(i + 1 <= j);
            }
        }
    }
}

// In an ordered list, what follows a later violation is later too.
proof fn lemma_later_after(s: Seq<ViolationModel>, v: ViolationModel, p: int, q: int)
    requires
        in_order(s),
        0 <= p <= q < s.len(),
        earlier(v, s[p]),
    ensures
        earlier(v, s[q]),
{
    place_order_is_total();
    if p < q {
        let lt = place_order();
        let a = place_of(s[p]);
        let b = place_of(s[q]);
        assert(!earlier(s[q], s[p]));
        assert(a == b || lt(a, b) || lt(b, a));
        assert(lt(place_of(v), a));
        if lt(a, b) {
            assert(lt(place_of(v), b));
        }
    }
}

/// Violations are reported in the order of path, line, column and rule.
pub proof fn sorted_is_in_order(s: Seq<ViolationModel>)
    ensures
        in_order(sorted(s)),
    decreases s.len(),
{
    if s.len() > 0 {
        sorted_is_in_order(s.drop_last());
        place_order_is_total();
        let before = sorted(s.drop_last());
        let v = s.last();
        lemma_upper_bounds(before, v, 0);
        let r = upper(before, v, 0);
        let t = sorted(s);
        assert forall|i: int, j: int| 0 <= i < j < t.len() implies !earlier(
            #[trigger] t[j],
            #[trigger] t[i],
        ) by {
            let lt = place_order();
            if i < r {
                assert(t[i] == before[i]);
            } else if i > r {
                assert(t[i] == before[i - 1]);
            }
            if j < r {
                assert(t[j] == before[j]);
            } else if j > r {
                assert(t[j] == before[j - 1]);
            }
            if i == r {
                lemma_later_after(before, v, r, j - 1);
                let a = place_of(v);
                let b = place_of(before[j - 1]);
                if lt(b, a) {
                    assert(lt(a, b));
                    assert(lt(a, a));
                }
            } else if j == r {
                assert(!earlier(v, before[i]));
            }
        }
    }
}

/// Ordering drops no violation and adds none.
pub proof fn sorted_keeps_violations(s: Seq<ViolationModel>)
    ensures
        sorted(s).to_multiset() == s.to_multiset(),
        sorted(s).len() == s.len(),
    decreases s.len(),
{
    broadcast use vstd::seq_lib::group_to_multiset_ensures;

    if s.len() > 0 {
        sorted_keeps_violations(s.drop_last());
        let before = sorted(s.drop_last());
        let v = s.last();
        lemma_upper_bounds(before, v, 0);
        let r = upper(before, v, 0);
        assert(before.insert(r, v).to_multiset() =~= before.to_multiset().insert(v));
        assert(s =~= s.drop_last().push(v));
        assert(s.to_multiset() =~= s.drop_last().to_multiset().insert(v));
    } else {
        assert(sorted(s) =~= s);
    }
}

/// The models of path components.
pub open spec fn part_models(v: Seq<Part>) -> Seq<PartModel> {
    v.map_values(|p: Part| p@)
}

fn rank(p: &Part) -> (r: u8)
    ensures
        r == part_rank(p@),
{
    match p {
        Part::Verbatim(_) => 0,
        Part::VerbatimShare(_, _) => 1,
        Part::VerbatimDrive(_) => 2,
        Part::Device(_) => 3,
        Part::Share(_, _) => 4,
        Part::Drive(_) => 5,
        Part::Root => 6,
        Part::Here => 7,
        Part::Parent => 8,
        Part::Name(_) => 9,
    }
}

fn drive_of_part(p: &Part) -> (r: u8)
    ensures
        r == part_drive(p@),
{
    match p {
        Part::VerbatimDrive(d) => *d,
        Part::Drive(d) => *d,
        _ => 0,
    }
}

fn text_of_part(p: &Part) -> (r: &str)
    ensures
        r@ == part_text(p@),
{
    match p {
        Part::Verbatim(s) => s.as_str(),
        Part::VerbatimShare(s, _) => s.as_str(),
        Part::Device(s) => s.as_str(),
        Part::Share(s, _) => s.as_str(),
        Part::Name(s) => s.as_str(),
        _ => {
            proof {
                reveal_strlit("");
                assert(""@ =~= Seq::<char>::empty());
            }
            ""
        },
    }
}

fn share_of_part(p: &Part) -> (r: &str)
    ensures
        r@ == part_share(p@),
{
    match p {
        Part::VerbatimShare(_, t) => t.as_str(),
        Part::Share(_, t) => t.as_str(),
        _ => {
            proof {
                reveal_strlit("");
                assert(""@ =~= Seq::<char>::empty());
            }
            ""
        },
    }
}

/// Compares two path components.
pub fn compare_part(a: &Part, b: &Part) -> (r: Order)
    ensures
        match r {
            Order::Less => part_lt(a@, b@),
            Order::Equal => a@ == b@,
            Order::Greater => part_lt(b@, a@),
        },
{
    proof {
        text_order_is_total();
        let tl = text_order();
        assert(!tl(part_text(a@), part_text(a@)));
    }
    let x: u8 = rank(a);
    let y: u8 = rank(b);
    if x != y {
        return if x < y { Order::Less } else { Order::Greater };
    }
    let x: u8 = drive_of_part(a);
    let y: u8 = drive_of_part(b);
    if x != y {
        return if x < y { Order::Less } else { Order::Greater };
    }
    match compare_text(text_of_part(a), text_of_part(b)) {
        Order::Equal => compare_text(share_of_part(a), share_of_part(b)),
        other => other,
    }
}

/// Compares two paths, given their components.
pub fn compare_path(a: &Vec<Part>, b: &Vec<Part>) -> (r: Order)
    ensures
        match r {
            Order::Less => path_lt(part_models(a@), part_models(b@)),
            Order::Equal => part_models(a@) == part_models(b@),
            Order::Greater => path_lt(part_models(b@), part_models(a@)),
        },
{
    let ghost ma = part_models(a@);
    let ghost mb = part_models(b@);
    proof {
        path_order_is_total();
    }
    let mut i: usize = 0;
    while i < a.len() && i < b.len()
        invariant
            i <= a@.len(),
            i <= b@.len(),
            ma == part_models(a@),
            mb == part_models(b@),
            strict_total(part_order()),
            forall|k: int| 0 <= k < i ==> ma[k] == mb[k],
        decreases a@.len() - i,
    {
        proof {
            crate::order::lemma_lex_skip(ma, mb, i as int, part_order());
            crate::order::lemma_lex_skip(mb, ma, i as int, part_order());
            assert(!part_order()(ma[i as int], ma[i as int]));
            assert(ma[i as int] == a@[i as int]@ && mb[i as int] == b@[i as int]@);
        }
        match compare_part(&a[i], &b[i]) {
            Order::Less => {
                return Order::Less;
            },
            Order::Greater => {
                return Order::Greater;
            },
            Order::Equal => {},
        }
        i += 1;
    }
    proof {
        crate::order::lemma_lex_skip(ma, mb, i as int, part_order());
        crate::order::lemma_lex_skip(mb, ma, i as int, part_order());
        if a@.len() == b@.len() {
            assert(ma =~= mb);
        }
    }
    if i < b.len() {
        Order::Less
    } else if i < a.len() {
        Order::Greater
    } else {
        Order::Equal
    }
}

fn is_earlier(a: &Violation, pa: &Vec<Part>, b: &Violation, pb: &Vec<Part>) -> (r: bool)
    requires
        part_models(pa@) == path_parts(a@.file),
        part_models(pb@) == path_parts(b@.file),
    ensures
        r == earlier(a@, b@),
{
    proof {
        path_order_is_total();
        text_order_is_total();
    }
    let c = compare_path(pa, pb);
    proof {
        let x = path_parts(a@.file);
        let y = path_parts(b@.file);
        let lt = path_order();
        assert(!lt(x, x));
        if c == Order::Greater {
            if lt(x, y) {
                assert(lt(y, x));
                assert(lt(x, x));
            }
        }
    }
    match c {
        Order::Less => true,
        Order::Greater => false,
        Order::Equal => {
            if a.span.start_line != b.span.start_line {
                a.span.start_line < b.span.start_line
            } else if a.span.start_col != b.span.start_col {
                a.span.start_col < b.span.start_col
            } else {
                let d = compare_text(a.rule_id.as_str(), b.rule_id.as_str());
                proof {
                    let lt = text_order();
                    assert(!lt(a@.rule_id, a@.rule_id));
                    if d == Order::Greater && lt(a@.rule_id, b@.rule_id) {
                        assert(lt(b@.rule_id, a@.rule_id));
                        assert(lt(a@.rule_id, a@.rule_id));
                    }
                }
                d == Order::Less
            }
        },
    }
}

// The violations at given positions.
spec fn picked(vs: Seq<ViolationModel>, at: Seq<usize>) -> Seq<ViolationModel> {
    at.map_values(|i: usize| vs[i as int])
}

fn copy_violation(v: &Violation) -> (r: Violation)
    ensures
        r@ == v@,
{
    Violation {
        rule_id: v.rule_id.clone(),
        severity: v.severity,
        description: copy_text(&v.description),
        message: copy_text(&v.message),
        file: v.file.clone(),
        span: v.span,
        matched: copy_matched(&v.matched),
    }
}

fn path_keys(vs: &Vec<Violation>) -> (r: Vec<Vec<Part>>)
    ensures
        r@.len() == vs@.len(),
        forall|i: int|
            0 <= i < vs@.len() ==> part_models((#[trigger] r@[i])@) == path_parts(vs@[i]@.file),
{
    let mut out: Vec<Vec<Part>> = Vec::new();
    let mut i: usize = 0;
    while i < vs.len()
        invariant
            i <= vs@.len(),
            out@.len() == i,
            forall|k: int|
                0 <= k < i ==> part_models((#[trigger] out@[k])@) == path_parts(vs@[k]@.file),
        decreases vs@.len() - i,
    {
        let parts = path_components(vs[i].file.as_str());
        assert(part_models(parts@) =~= path_parts(vs@[i as int]@.file));
        out.push(parts);
        i += 1;
    }
    out
}

fn find_upper(
    vs: &Vec<Violation>,
    keys: &Vec<Vec<Part>>,
    at: &Vec<usize>,
    v: usize,
) -> (r: usize)
    requires
        v < vs@.len(),
        keys@.len() == vs@.len(),
        forall|i: int|
            0 <= i < vs@.len() ==> part_models((#[trigger] keys@[i])@) == path_parts(vs@[i]@.file),
        forall|i: int| 0 <= i < at@.len() ==> #[trigger] at@[i] < vs@.len(),
        in_order(picked(views(vs@), at@)),
    ensures
        r <= at@.len(),
        r == upper(picked(views(vs@), at@), vs@[v as int]@, 0),
{
    let ghost s = picked(views(vs@), at@);
    let ghost x = vs@[v as int]@;
    let mut lo: usize = 0;
    let mut hi: usize = at.len();
    while lo < hi
        invariant
            lo <= hi <= at@.len(),
            v < vs@.len(),
            keys@.len() == vs@.len(),
            forall|i: int|
                0 <= i < vs@.len() ==> part_models((#[trigger] keys@[i])@) == path_parts(vs@[i]@.file),
            forall|i: int| 0 <= i < at@.len() ==> #[trigger] at@[i] < vs@.len(),
            s == picked(views(vs@), at@),
            x == vs@[v as int]@,
            in_order(s),
            forall|j: int| 0 <= j < lo ==> !earlier(x, #[trigger] s[j]),
            forall|j: int| hi <= j < s.len() ==> earlier(x, #[trigger] s[j]),
        decreases hi - lo,
    {
        let mid: usize = lo + (hi - lo) / 2;
        let m: usize = at[mid];
        assert(s[mid as int] == vs@[m as int]@);
        assert(part_models(keys@[v as int]@) == path_parts(vs@[v as int]@.file));
        assert(part_models(keys@[m as int]@) == path_parts(vs@[m as int]@.file));
        if is_earlier(&vs[v], &keys[v], &vs[m], &keys[m]) {
            assert forall|j: int| mid <= j < s.len() implies earlier(x, #[trigger] s[j]) by {
                lemma_later_after(s, x, mid as int, j);
            }
            hi = mid;
        } else {
            assert forall|j: int| 0 <= j < mid + 1 implies !earlier(x, #[trigger] s[j]) by {
                if earlier(x, s[j]) {
                    lemma_later_after(s, x, j, mid as int);
                }
            }
            lo = mid + 1;
        }
    }
    proof {
        lemma_upper(s, x, 0, lo as int);
    }
    lo
}

/// Orders violations by place.
pub fn sort_violations(vs: &Vec<Violation>) -> (r: Vec<Violation>)
    ensures
        views(r@) == sorted(views(vs@)),
{
    let ghost models = views(vs@);
    let keys = path_keys(vs);
    let mut at: Vec<usize> = Vec::new();
    let mut i: usize = 0;
    assert(models.take(0) =~= Seq::<ViolationModel>::empty());
    assert(picked(models, at@) =~= Seq::<ViolationModel>::empty());
    while i < vs.len()
        invariant
            i <= vs@.len(),
            models == views(vs@),
            keys@.len() == vs@.len(),
            forall|i: int|
                0 <= i < vs@.len() ==> part_models((#[trigger] keys@[i])@) == path_parts(vs@[i]@.file),
            forall|k: int| 0 <= k < at@.len() ==> #[trigger] at@[k] < vs@.len(),
            picked(models, at@) == sorted(models.take(i as int)),
        decreases vs@.len() - i,
    {
        let ghost before = at@;
        proof {
            sorted_is_in_order(models.take(i as int));
        }
        let r: usize = find_upper(vs, &keys, &at, i);
        at.insert(r, i);
        proof {
            assert(models.take(i + 1).drop_last() =~= models.take(i as int));
            assert(models.take(i + 1).last() == vs@[i as int]@);
            assert(picked(models, at@) =~= picked(models, before).insert(r as int, models[i as int]));
            assert forall|k: int| 0 <= k < at@.len() implies #[trigger] at@[k] < vs@.len() by {
                if k < r {
                    assert(at@[k] == before[k]);
                } else if k > r {
                    assert(at@[k] == before[k - 1]);
                }
            }
        }
        i += 1;
    }
    assert(models.take(i as int) =~= models);
    let mut out: Vec<Violation> = Vec::new();
    let mut j: usize = 0;
    while j < at.len()
        invariant
            j <= at@.len(),
            models == views(vs@),
            forall|k: int| 0 <= k < at@.len() ==> #[trigger] at@[k] < vs@.len(),
            out@.len() == j,
            forall|k: int| 0 <= k < j ==> (#[trigger] out@[k])@ == models[at@[k] as int],
        decreases at@.len() - j,
    {
        out.push(copy_violation(&vs[at[j]]));
        j += 1;
    }
    assert(views(out@) =~= picked(models, at@));
    out
}

// ---------------------------------------------------------------------------
// Running rules
// ---------------------------------------------------------------------------

/// The violations of the primary rules, rule by rule.
pub open spec fn primary_violations(
    rules: Seq<RuleModel>,
    streams: Seq<StreamModel>,
    ctx: ContextModel,
) -> Seq<ViolationModel> {
    concat(
        rules.map_values(
            |r: RuleModel|
                if aggregates(r) {
                    Seq::empty()
                } else {
                    rule_violations(r, streams, ctx)
                },
        ),
    )
}

/// The violations of the derived rules, rule by rule.
pub open spec fn derived_violations(
    rules: Seq<RuleModel>,
    primary: Seq<ViolationModel>,
    ctx: ContextModel,
) -> Seq<ViolationModel> {
    concat(rules.map_values(|r: RuleModel| derived(r, primary, ctx)))
}

/// All violations of a set of rules, ordered by place.
pub open spec fn run_of(rules: Seq<RuleModel>, streams: Seq<StreamModel>, ctx: ContextModel) -> Seq<
    ViolationModel,
> {
    let primary = primary_violations(rules, streams, ctx);
    sorted(primary + derived_violations(rules, primary, ctx))
}

fn run_primary(rules: &[CompiledRule], streams: &[TokenStream], ctx: &MatchContext) -> (r: Vec<
    Violation,
>)
    requires
        rules_wf(rules@),
    ensures
        views(r@) == primary_violations(views(rules@), stream_models(streams@), ctx@),
{
    let ghost all = views(rules@).map_values(
        |r: RuleModel|
            if aggregates(r) {
                Seq::empty()
            } else {
                rule_violations(r, stream_models(streams@), ctx@)
            },
    );
    let mut out: Vec<Violation> = Vec::new();
    let mut i: usize = 0;
    assert(all.take(0) =~= Seq::<Seq<ViolationModel>>::empty());
    assert(views(out@) =~= Seq::<ViolationModel>::empty());
    while i < rules.len()
        invariant
            i <= rules@.len(),
            rules_wf(rules@),
            all == views(rules@).map_values(
                |r: RuleModel|
                    if aggregates(r) {
                        Seq::empty()
                    } else {
                        rule_violations(r, stream_models(streams@), ctx@)
                    },
            ),
            views(out@) == concat(all.take(i as int)),
        decreases rules@.len() - i,
    {
        assert(all.take(i + 1).drop_last() =~= all.take(i as int));
        let ghost before = views(out@);
        if !rules[i].is_aggregate() {
            run_rule(&rules[i], streams, ctx, &mut out);
        } else {
            assert(before + Seq::<ViolationModel>::empty() =~= before);
        }
        i += 1;
    }
    assert(all.take(i as int) =~= all);
    out
}

fn run_derived(rules: &[CompiledRule], primary: &Vec<Violation>, ctx: &MatchContext) -> (r: Vec<
    Violation,
>)
    ensures
        views(r@) == derived_violations(views(rules@), views(primary@), ctx@),
{
    let ghost all = views(rules@).map_values(|r: RuleModel| derived(r, views(primary@), ctx@));
    let mut out: Vec<Violation> = Vec::new();
    let mut i: usize = 0;
    assert(all.take(0) =~= Seq::<Seq<ViolationModel>>::empty());
    assert(views(out@) =~= Seq::<ViolationModel>::empty());
    while i < rules.len()
        invariant
            i <= rules@.len(),
            all == views(rules@).map_values(|r: RuleModel| derived(r, views(primary@), ctx@)),
            views(out@) == concat(all.take(i as int)),
        decreases rules@.len() - i,
    {
        assert(all.take(i + 1).drop_last() =~= all.take(i as int));
        assert(all.take(i + 1).last() == derived(rules@[i as int]@, views(primary@), ctx@));
        let ghost before = views(out@);
        let rule = &rules[i];
        if let Some(c) = &rule.compose {
            run_compose(rule, c, primary, ctx, &mut out);
        } else if let Some(c) = &rule.count {
            run_count(rule, c, primary, ctx, &mut out);
        } else {
            assert(before + Seq::<ViolationModel>::empty() =~= before);
        }
        i += 1;
    }
    assert(all.take(i as int) =~= all);
    out
}

/// Runs all rules over the token streams: first the primary rules, then those
/// derived from the primary violations. The violations come ordered by place.
pub fn run(rules: &[CompiledRule], streams: &[TokenStream], ctx: &MatchContext) -> (r: Vec<Violation>)
    requires
        rules_wf(rules@),
    ensures
        views(r@) == run_of(views(rules@), stream_models(streams@), ctx@),
{
    let mut out = run_primary(rules, streams, ctx);
    let mut more = run_derived(rules, &out, ctx);
    let ghost a = out@;
    let ghost b = more@;
    out.append(&mut more);
    assert(views(out@) =~= views(a) + views(b));
    sort_violations(&out)
}

/// The number of violations with a severity.
pub open spec fn severity_count(vs: Seq<ViolationModel>, s: Severity) -> nat
    decreases vs.len(),
{
    if vs.len() == 0 {
        0
    } else {
        severity_count(vs.drop_last(), s) + (if vs.last().severity == s {
            1nat
        } else {
            0
        })
    }
}

/// Counts errors and warnings.
pub fn summarize(violations: &[Violation]) -> (r: (usize, usize))
    ensures
        r.0 == severity_count(views(violations@), Severity::Error),
        r.1 == severity_count(views(violations@), Severity::Warning),
        r.0 + r.1 == violations@.len(),
{
    let ghost models = views(violations@);
    let mut errors: usize = 0;
    let mut i: usize = 0;
    assert(models.take(0) =~= Seq::<ViolationModel>::empty());
    while i < violations.len()
        invariant
            errors <= i <= violations@.len(),
            models == views(violations@),
            errors == severity_count(models.take(i as int), Severity::Error),
            i - errors == severity_count(models.take(i as int), Severity::Warning),
        decreases violations@.len() - i,
    {
        assert(models.take(i + 1).drop_last() =~= models.take(i as int));
        assert(models.take(i + 1).last() == violations@[i as int]@);
        if violations[i].severity == Severity::Error {
            errors += 1;
        }
        i += 1;
    }
    assert(models.take(i as int) =~= models);
    (errors, violations.len() - errors)
}

// ---------------------------------------------------------------------------
// Laws
// ---------------------------------------------------------------------------

/// The number of violations of a rule with a key.
pub open spec fn tally(vs: Seq<ViolationModel>, id: Seq<char>, key: Seq<KeyPart>, k: Key) -> nat
    decreases vs.len(),
{
    if vs.len() == 0 {
        0
    } else {
        tally(vs.drop_last(), id, key, k) + (if vs.last().rule_id == id && key_of(vs.last(), key)
            == k {
            1nat
        } else {
            0
        })
    }
}

/// The first violation of a rule with a key.
pub open spec fn first_with(vs: Seq<ViolationModel>, id: Seq<char>, key: Seq<KeyPart>, k: Key) -> Option<
    ViolationModel,
>
    decreases vs.len(),
{
    if vs.len() == 0 {
        None
    } else {
        match first_with(vs.drop_last(), id, key, k) {
            Some(v) => Some(v),
            None => if vs.last().rule_id == id && key_of(vs.last(), key) == k {
                Some(vs.last())
            } else {
                None
            },
        }
    }
}

proof fn lemma_first_tally(vs: Seq<ViolationModel>, id: Seq<char>, key: Seq<KeyPart>, k: Key)
    ensures
        first_with(vs, id, key, k) is Some <==> tally(vs, id, key, k) > 0,
    decreases vs.len(),
{
    if vs.len() > 0 {
        lemma_first_tally(vs.drop_last(), id, key, k);
    }
}

/// A group stands for the violations of a rule with one key: it is there exactly
/// when there are any, counts them all, and shows the first of them.
pub proof fn groups_count_violations(
    vs: Seq<ViolationModel>,
    id: Seq<char>,
    key: Seq<KeyPart>,
    k: Key,
)
    ensures
        has_key(grouped(vs, id, key), k) <==> tally(vs, id, key, k) > 0,
        forall|i: int|
            0 <= i < grouped(vs, id, key).len() && (#[trigger] grouped(vs, id, key)[i]).key == k ==> {
                &&& grouped(vs, id, key)[i].count == tally(vs, id, key, k)
                &&& first_with(vs, id, key, k) == Some(grouped(vs, id, key)[i].rep)
            },
    decreases vs.len(),
{
    if vs.len() > 0 {
        let t = vs.drop_last();
        let v = vs.last();
        let s = grouped(t, id, key);
        let n = grouped(vs, id, key);
        groups_count_violations(t, id, key, k);
        groups_have_distinct_keys(t, id, key);
        groups_have_distinct_keys(vs, id, key);
        if v.rule_id == id {
            let c = key_of(v, key);
            lemma_slot_bounds(s, c, 0);
            lemma_has_slot(s, c);
            let r = slot(s, c, 0);
            lemma_first_tally(t, id, key, k);
            if has_slot(s, c) {
                assert forall|i: int| 0 <= i < n.len() implies (#[trigger] n[i]).key == s[i].key && n[i].rep
                    == s[i].rep by {}
                if has_key(s, k) {
                    let i = choose|i: int| 0 <= i < s.len() && (#[trigger] s[i]).key == k;
                    assert(n[i].key == k);
                }
                if has_key(n, k) {
                    let i = choose|i: int| 0 <= i < n.len() && (#[trigger] n[i]).key == k;
                    assert(s[i].key == k);
                }
                assert forall|i: int| 0 <= i < n.len() && (#[trigger] n[i]).key == k implies n[i].count
                    == tally(vs, id, key, k) && first_with(vs, id, key, k) == Some(n[i].rep) by {
                    assert(s[i].key == k);
                    key_order_is_total();
                    if c == k && i != r {
                        assert(!key_order()(k, k));
                        if i < r {
                            assert(key_lt(s[i].key, s[r].key));
                        } else {
                            assert(key_lt(s[r].key, s[i].key));
                        }
                    }
                }
            } else {
                assert(n[r].key == c);
                if has_key(s, k) {
                    let i = choose|i: int| 0 <= i < s.len() && (#[trigger] s[i]).key == k;
                    if i < r {
                        assert(n[i] == s[i]);
                    } else {
                        assert(n[i + 1] == s[i]);
                    }
                }
                assert forall|i: int| 0 <= i < n.len() && (#[trigger] n[i]).key == k implies n[i].count
                    == tally(vs, id, key, k) && first_with(vs, id, key, k) == Some(n[i].rep) && (k == c
                    || has_key(s, k)) by {
                    if i < r {
                        assert(n[i] == s[i]);
                        assert(s[i].key == k);
                    } else if i > r {
                        assert(n[i] == s[i - 1]);
                        assert(s[i - 1].key == k);
                    }
                }
            }
        }
    }
}

/// Merged groups have the keys of both lists.
pub proof fn lemma_merged_keys(a: Seq<GroupModel>, b: Seq<GroupModel>, k: Key)
    requires
        groups_ordered(a),
    ensures
        has_key(merged(a, b), k) <==> has_key(a, k) || has_key(b, k),
    decreases b.len(),
{
    if b.len() > 0 {
        let t = b.drop_last();
        let m = merged(a, t);
        let g = b.last();
        lemma_merged_keys(a, t, k);
        lemma_merged_ordered(a, t);
        lemma_has_slot(m, g.key);
        lemma_slot_bounds(m, g.key, 0);
        let n = merged(a, b);
        let r = slot(m, g.key, 0);
        if has_key(t, k) {
            let i = choose|i: int| 0 <= i < t.len() && (#[trigger] t[i]).key == k;
            assert(b[i].key == k);
        }
        if has_key(b, k) {
            let i = choose|i: int| 0 <= i < b.len() && (#[trigger] b[i]).key == k;
            if i < t.len() {
                assert(t[i].key == k);
            }
        }
        assert(b[b.len() - 1] == g);
        if !has_slot(m, g.key) {
            assert(n[r] == g);
            if has_key(m, k) {
                let i = choose|i: int| 0 <= i < m.len() && (#[trigger] m[i]).key == k;
                if i < r {
                    assert(n[i] == m[i]);
                } else {
                    assert(n[i + 1] == m[i]);
                }
            }
            if has_key(n, k) {
                let i = choose|i: int| 0 <= i < n.len() && (#[trigger] n[i]).key == k;
                if i < r {
                    assert(m[i] == n[i]);
                } else if i > r {
                    assert(m[i - 1] == n[i]);
                }
            }
        }
    }
}

/// A union of groups is in order and has the keys of all the lists.
pub proof fn lemma_union_keys(maps: Seq<Seq<GroupModel>>, k: Key)
    requires
        forall|j: int| 0 <= j < maps.len() ==> groups_ordered(#[trigger] maps[j]),
    ensures
        groups_ordered(union_of(maps)),
        has_key(union_of(maps), k) <==> exists|j: int|
            0 <= j < maps.len() && has_key(#[trigger] maps[j], k),
    decreases maps.len(),
{
    if maps.len() > 0 {
        let t = maps.drop_last();
        assert forall|j: int| 0 <= j < t.len() implies groups_ordered(#[trigger] t[j]) by {
            assert(t[j] == maps[j]);
        }
        lemma_union_keys(t, k);
        lemma_merged_keys(union_of(t), maps.last(), k);
        lemma_merged_ordered(union_of(t), maps.last());
        if exists|j: int| 0 <= j < t.len() && has_key(#[trigger] t[j], k) {
            let j = choose|j: int| 0 <= j < t.len() && has_key(#[trigger] t[j], k);
            assert(maps[j] == t[j]);
        }
        if has_key(maps.last(), k) {
            assert(has_key(maps[maps.len() - 1], k));
        }
        if exists|j: int| 0 <= j < maps.len() && has_key(#[trigger] maps[j], k) {
            let j = choose|j: int| 0 <= j < maps.len() && has_key(#[trigger] maps[j], k);
            if j < t.len() {
                assert(t[j] == maps[j]);
            }
        }
    }
}

proof fn lemma_where(s: Seq<GroupModel>, f: spec_fn(GroupModel) -> bool, n: int)
    requires
        0 <= n <= s.len(),
        groups_ordered(s),
    ensures
        groups_ordered(groups_below(s, f, n)),
        forall|k: Key| #[trigger]
            has_key(groups_below(s, f, n), k) <==> exists|i: int|
                0 <= i < n && (#[trigger] s[i]).key == k && f(s[i]),
    decreases n,
{
    let h = |i: int| f(s[i]);
    let at = positions(n, h);
    let r = groups_below(s, f, n);
    assert(r == groups_at(s, at));
    if n > 0 {
        lemma_where(s, f, n - 1);
        let bt = positions(n - 1, h);
        let b = groups_below(s, f, n - 1);
        assert(b == groups_at(s, bt));
        crate::sequence::lemma_positions_increase(n - 1, h);
        if f(s[n - 1]) {
            assert(at == bt.push(n - 1));
            assert(r =~= b.push(s[n - 1]));
            assert forall|i: int, j: int| 0 <= i < j < r.len() implies key_lt(
                (#[trigger] r[i]).key,
                (#[trigger] r[j]).key,
            ) by {
                assert(r[i] == b[i]);
                assert(0 <= bt[i] < n - 1);
                if j < b.len() {
                    assert(r[j] == b[j]);
                } else {
                    assert(key_lt(s[bt[i]].key, s[n - 1].key));
                }
            }
            assert forall|k: Key| #![trigger has_key(r, k)] has_key(r, k) <==> exists|i: int|
                0 <= i < n && (#[trigger] s[i]).key == k && f(s[i]) by {
                assert(has_key(b, k) <==> exists|i: int|
                    0 <= i < n - 1 && (#[trigger] s[i]).key == k && f(s[i]));
                if has_key(r, k) {
                    let j = choose|j: int| 0 <= j < r.len() && (#[trigger] r[j]).key == k;
                    if j < b.len() {
                        assert(b[j].key == k);
                        let i = choose|i: int|
                            0 <= i < n - 1 && (#[trigger] s[i]).key == k && f(s[i]);
                        assert(s[i].key == k);
                    } else {
                        assert(s[n - 1].key == k);
                    }
                }
                if exists|i: int| 0 <= i < n && (#[trigger] s[i]).key == k && f(s[i]) {
                    let i = choose|i: int| 0 <= i < n && (#[trigger] s[i]).key == k && f(s[i]);
                    if i == n - 1 {
                        assert(r[b.len() as int].key == k);
                    } else {
                        assert(has_key(b, k));
                        let j = choose|j: int| 0 <= j < b.len() && (#[trigger] b[j]).key == k;
                        assert(r[j].key == k);
                    }
                }
            }
        } else {
            assert(at == bt);
            assert forall|k: Key| #![trigger has_key(r, k)] has_key(r, k) <==> exists|i: int|
                0 <= i < n && (#[trigger] s[i]).key == k && f(s[i]) by {
                assert(has_key(b, k) <==> exists|i: int|
                    0 <= i < n - 1 && (#[trigger] s[i]).key == k && f(s[i]));
                if exists|i: int| 0 <= i < n && (#[trigger] s[i]).key == k && f(s[i]) {
                    let i = choose|i: int| 0 <= i < n && (#[trigger] s[i]).key == k && f(s[i]);
                    assert(i < n - 1);
                }
            }
        }
    } else {
        assert(at =~= Seq::<int>::empty());
        assert(r =~= Seq::<GroupModel>::empty());
    }
}

/// Set operations act on keys: an intersection keeps the keys present in every
/// list, a union those in any, and a difference those in the first list and none of
/// the rest. Each surviving key has one group.
pub proof fn set_operations_act_on_keys(op: SetOp, maps: Seq<Seq<GroupModel>>, k: Key)
    requires
        maps.len() > 0,
        forall|j: int| 0 <= j < maps.len() ==> groups_ordered(#[trigger] maps[j]),
    ensures
        groups_ordered(combined(op, maps)),
        has_key(combined(op, maps), k) <==> match op {
            SetOp::Union => exists|j: int| 0 <= j < maps.len() && has_key(#[trigger] maps[j], k),
            SetOp::Intersection => forall|j: int|
                0 <= j < maps.len() ==> has_key(#[trigger] maps[j], k),
            SetOp::Difference => has_key(maps[0], k) && forall|j: int|
                1 <= j < maps.len() ==> !has_key(#[trigger] maps[j], k),
        },
{
    let s = maps[0];
    assert forall|j: int, q: Key| 0 <= j < maps.len() implies has_slot(#[trigger] maps[j], q)
        == #[trigger] has_key(maps[j], q) by {
        lemma_has_slot(maps[j], q);
    }
    match op {
        SetOp::Union => {
            lemma_union_keys(maps, k);
        },
        SetOp::Intersection => {
            let f = |g: GroupModel| in_all_others(maps, g.key);
            lemma_where(s, f, s.len() as int);
            assert(combined(op, maps) == groups_below(s, f, s.len() as int));
            assert(has_key(groups_below(s, f, s.len() as int), k) <==> exists|i: int|
                0 <= i < s.len() && (#[trigger] s[i]).key == k && f(s[i]));
            if has_key(combined(op, maps), k) {
                let i = choose|i: int| 0 <= i < s.len() && (#[trigger] s[i]).key == k && f(s[i]);
                assert(has_key(maps[0], k));
                assert forall|j: int| 0 <= j < maps.len() implies has_key(#[trigger] maps[j], k) by {
                    if j >= 1 {
                        assert(has_slot(maps[j], k));
                    }
                }
            }
            if forall|j: int| 0 <= j < maps.len() ==> has_key(#[trigger] maps[j], k) {
                assert(has_key(maps[0], k));
                let i = choose|i: int| 0 <= i < s.len() && (#[trigger] s[i]).key == k;
                assert(f(s[i])) by {
                    assert forall|j: int| 1 <= j < maps.len() implies has_slot(
                        #[trigger] maps[j],
                        k,
                    ) by {
                        assert(has_key(maps[j], k));
                    }
                }
            }
        },
        SetOp::Difference => {
            let f = |g: GroupModel| in_no_other(maps, g.key);
            lemma_where(s, f, s.len() as int);
            assert(combined(op, maps) == groups_below(s, f, s.len() as int));
            assert(has_key(groups_below(s, f, s.len() as int), k) <==> exists|i: int|
                0 <= i < s.len() && (#[trigger] s[i]).key == k && f(s[i]));
            if has_key(combined(op, maps), k) {
                let i = choose|i: int| 0 <= i < s.len() && (#[trigger] s[i]).key == k && f(s[i]);
                assert(has_key(maps[0], k));
                assert forall|j: int| 1 <= j < maps.len() implies !has_key(
                    #[trigger] maps[j],
                    k,
                ) by {
                    assert(!has_slot(maps[j], k));
                }
            }
            if has_key(maps[0], k) && forall|j: int|
                1 <= j < maps.len() ==> !has_key(#[trigger] maps[j], k) {
                let i = choose|i: int| 0 <= i < s.len() && (#[trigger] s[i]).key == k;
                assert(f(s[i])) by {
                    assert forall|j: int| 1 <= j < maps.len() implies !has_slot(
                        #[trigger] maps[j],
                        k,
                    ) by {
                        assert(!has_key(maps[j], k));
                    }
                }
            }
        },
    }
}

/// A threshold fires for a key exactly when the number of violations with that key
/// is not zero and compares true.
pub proof fn thresholds_compare_group_sizes(c: CountModel, vs: Seq<ViolationModel>, k: Key)
    ensures
        has_key(over_threshold(c, vs), k) <==> {
            let n = tally(vs, c.rule, count_key(c.scope), k);
            n > 0 && count_compares(c.op, n as int, c.n as int)
        },
        groups_ordered(over_threshold(c, vs)),
{
    let key = count_key(c.scope);
    let s = grouped(vs, c.rule, key);
    let f = |g: GroupModel| count_compares(c.op, g.count as int, c.n as int);
    groups_have_distinct_keys(vs, c.rule, key);
    groups_count_violations(vs, c.rule, key, k);
    lemma_where(s, f, s.len() as int);
    assert(over_threshold(c, vs) == groups_below(s, f, s.len() as int));
    assert(has_key(groups_below(s, f, s.len() as int), k) <==> exists|i: int|
        0 <= i < s.len() && (#[trigger] s[i]).key == k && f(s[i]));
    if has_key(s, k) {
        let i = choose|i: int| 0 <= i < s.len() && (#[trigger] s[i]).key == k;
        assert(s[i].count == tally(vs, c.rule, key, k));
    }
}

proof fn lemma_concat_from<T>(lists: Seq<Seq<T>>, x: T)
    requires
        concat(lists).contains(x),
    ensures
        exists|i: int| 0 <= i < lists.len() && (#[trigger] lists[i]).contains(x),
    decreases lists.len(),
{
    if lists.len() > 0 {
        let before = concat(lists.drop_last());
        let all = concat(lists);
        let k = all.index_of(x);
        assert(all[k] == x);
        if k < before.len() {
            assert(before[k] == x);
            lemma_concat_from(lists.drop_last(), x);
            let i = choose|i: int|
                0 <= i < lists.drop_last().len() && (#[trigger] lists.drop_last()[i]).contains(x);
            assert(lists[i].contains(x));
        } else {
            assert(lists.last()[k - before.len()] == x);
            assert(lists[lists.len() - 1].contains(x));
        }
    }
}

proof fn lemma_emitted(rule: RuleModel, gs: Seq<GroupModel>, ctx: ContextModel, v: ViolationModel)
    requires
        emitted(rule, gs, ctx).contains(v),
    ensures
        v.rule_id == rule.id,
        !silenced(rule, v.file, ctx),
    decreases gs.len(),
{
    if gs.len() > 0 {
        let before = emitted(rule, gs.drop_last(), ctx);
        let all = emitted(rule, gs, ctx);
        let k = all.index_of(v);
        assert(all[k] == v);
        if k < before.len() {
            assert(before[k] == v);
            lemma_emitted(rule, gs.drop_last(), ctx, v);
        }
    }
}

proof fn lemma_primary(
    r: RuleModel,
    streams: Seq<StreamModel>,
    ctx: ContextModel,
    v: ViolationModel,
)
    requires
        rule_violations(r, streams, ctx).contains(v),
    ensures
        v.rule_id == r.id,
        !silenced(r, v.file, ctx),
{
    let lists = streams.map_values(
        |s: StreamModel| crate::matching::stream_violations(r, s, ctx),
    );
    lemma_concat_from(lists, v);
    let i = choose|i: int| 0 <= i < lists.len() && (#[trigger] lists[i]).contains(v);
    let list = crate::matching::stream_violations(r, streams[i], ctx);
    assert(lists[i] == list);
    let k = list.index_of(v);
    assert(list[k] == v);
}

/// Nothing is reported of a rule in a file where it is silenced: every reported
/// violation belongs to a rule that no waiver and no guard silences there.
pub proof fn silenced_rules_report_nothing(
    rules: Seq<RuleModel>,
    streams: Seq<StreamModel>,
    ctx: ContextModel,
    v: ViolationModel,
)
    requires
        run_of(rules, streams, ctx).contains(v),
    ensures
        exists|i: int|
            0 <= i < rules.len() && (#[trigger] rules[i]).id == v.rule_id && !silenced(
                rules[i],
                v.file,
                ctx,
            ),
{
    broadcast use vstd::seq_lib::group_to_multiset_ensures;

    let primary = primary_violations(rules, streams, ctx);
    let more = derived_violations(rules, primary, ctx);
    let all = primary + more;
    sorted_keeps_violations(all);
    assert(sorted(all).to_multiset().contains(v));
    assert(all.to_multiset().contains(v));
    assert(all.contains(v));
    let k = all.index_of(v);
    assert(all[k] == v);
    if k < primary.len() {
        assert(primary[k] == v);
        let lists = rules.map_values(
            |r: RuleModel|
                if aggregates(r) {
                    Seq::empty()
                } else {
                    rule_violations(r, streams, ctx)
                },
        );
        assert(primary == concat(lists));
        lemma_concat_from(lists, v);
        let i = choose|i: int| 0 <= i < lists.len() && (#[trigger] lists[i]).contains(v);
        assert(!aggregates(rules[i]));
        lemma_primary(rules[i], streams, ctx, v);
    } else {
        assert(more[k - primary.len()] == v);
        let lists = rules.map_values(|r: RuleModel| derived(r, primary, ctx));
        assert(more == concat(lists));
        lemma_concat_from(lists, v);
        let i = choose|i: int| 0 <= i < lists.len() && (#[trigger] lists[i]).contains(v);
        let r = rules[i];
        assert(lists[i] == derived(r, primary, ctx));
        if let Some(c) = r.compose {
            lemma_emitted(r, combined(c.op, maps_of(c, primary)), ctx, v);
        } else if let Some(c) = r.count {
            lemma_emitted(r, over_threshold(c, primary), ctx, v);
        }
    }
}

/// A waiver suppresses its rule in its file unconditionally.
pub proof fn waivers_suppress(
    rules: Seq<RuleModel>,
    streams: Seq<StreamModel>,
    ctx: ContextModel,
    v: ViolationModel,
)
    requires
        run_of(rules, streams, ctx).contains(v),
    ensures
        !crate::matching::waived(ctx, v.rule_id, v.file),
{
    silenced_rules_report_nothing(rules, streams, ctx, v);
}

/// An accepted decision record satisfies every guard with its topic: the rule
/// reports nothing anywhere.
pub proof fn accepted_decisions_suppress(
    r: RuleModel,
    streams: Seq<StreamModel>,
    primary: Seq<ViolationModel>,
    ctx: ContextModel,
)
    requires
        r.unless is Some,
        r.unless->0.adr_topic is Some,
        crate::matching::decided(ctx, r.unless->0.adr_topic->0),
    ensures
        rule_violations(r, streams, ctx) == Seq::<ViolationModel>::empty(),
        derived(r, primary, ctx) == Seq::<ViolationModel>::empty(),
{
    let a = rule_violations(r, streams, ctx);
    if a.len() > 0 {
        assert(a.contains(a[0]));
        lemma_primary(r, streams, ctx, a[0]);
    }
    assert(a =~= Seq::<ViolationModel>::empty());
    let b = derived(r, primary, ctx);
    if b.len() > 0 {
        assert(b.contains(b[0]));
        if let Some(c) = r.compose {
            lemma_emitted(r, combined(c.op, maps_of(c, primary)), ctx, b[0]);
        } else if let Some(c) = r.count {
            lemma_emitted(r, over_threshold(c, primary), ctx, b[0]);
        }
    }
    assert(b =~= Seq::<ViolationModel>::empty());
}

/// Every violation of a primary rule is evidence: it shows a token of its file, in a
/// stream that the rule applies to.
pub proof fn violations_point_at_tokens(
    r: RuleModel,
    streams: Seq<StreamModel>,
    ctx: ContextModel,
    v: ViolationModel,
)
    requires
        rule_violations(r, streams, ctx).contains(v),
    ensures
        exists|i: int, t: crate::token::TokenModel|
            0 <= i < streams.len() && crate::matching::applies(r, streams[i], ctx)
                && #[trigger] crate::matching::rule_hits(r, streams[i].tokens).contains(t) && v
                == #[trigger] crate::matching::violation_at(r, streams[i].file, t),
{
    let lists = streams.map_values(
        |s: StreamModel| crate::matching::stream_violations(r, s, ctx),
    );
    lemma_concat_from(lists, v);
    let i = choose|i: int| 0 <= i < lists.len() && (#[trigger] lists[i]).contains(v);
    let s = streams[i];
    let list = crate::matching::stream_violations(r, s, ctx);
    assert(lists[i] == list);
    let k = list.index_of(v);
    assert(list[k] == v);
    let hits = crate::matching::rule_hits(r, s.tokens);
    let t = hits[k];
    assert(hits.contains(t));
    assert(v == crate::matching::violation_at(r, s.file, t));
}

} // verus!
