//! Facts about lists that the other laws rest on.

use vstd::prelude::*;

use crate::compile::concat;

verus! {

/// Several lists one after the other hold what the lists hold, and nothing else.
pub proof fn concat_holds_all<T>(lists: Seq<Seq<T>>, x: T)
    ensures
        concat(lists).contains(x) <==> exists|i: int|
            0 <= i < lists.len() && (#[trigger] lists[i]).contains(x),
    decreases lists.len(),
{
    if lists.len() > 0 {
        let init = lists.drop_last();
        let before = concat(init);
        let all = concat(lists);
        concat_holds_all(init, x);
        if all.contains(x) {
            let k = all.index_of(x);
            assert(all[k] == x);
            if k < before.len() {
                assert(before[k] == x);
                let i = choose|i: int| 0 <= i < init.len() && (#[trigger] init[i]).contains(x);
                assert(lists[i].contains(x));
            } else {
                assert(lists.last()[k - before.len()] == x);
                assert(lists[lists.len() - 1].contains(x));
            }
        }
        if exists|i: int| 0 <= i < lists.len() && (#[trigger] lists[i]).contains(x) {
            let i = choose|i: int| 0 <= i < lists.len() && (#[trigger] lists[i]).contains(x);
            if i < init.len() {
                assert(init[i].contains(x));
                let k = before.index_of(x);
                assert(before[k] == x);
                assert(all[k] == x);
            } else {
                let k = lists.last().index_of(x);
                assert(lists.last()[k] == x);
                assert(all[before.len() + k] == x);
            }
        }
    }
}

/// A list with a function applied to each item holds the results, and nothing else.
pub proof fn mapped_holds_results<A, B>(list: Seq<A>, f: spec_fn(A) -> B, y: B)
    ensures
        list.map_values(f).contains(y) <==> exists|i: int|
            0 <= i < list.len() && f(#[trigger] list[i]) == y,
{
    let m = list.map_values(f);
    if m.contains(y) {
        let k = m.index_of(y);
        assert(m[k] == y);
        assert(f(list[k]) == y);
    }
    if exists|i: int| 0 <= i < list.len() && f(#[trigger] list[i]) == y {
        let i = choose|i: int| 0 <= i < list.len() && f(#[trigger] list[i]) == y;
        assert(m[i] == y);
    }
}

} // verus!
