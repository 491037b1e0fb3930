//! Captures.

use vstd::prelude::*;

use crate::event::ElementModel;
use crate::order::{find, find_after_put};
use crate::rules::captured;
use crate::schema::BindsModel;

verus! {

/// A capture keeps the first text of a field under its name, takes the place of an earlier one
/// with that name, and leaves all others as they are. A field without texts captures nothing.
pub proof fn captures_keep_the_first_text(
    bind: BindsModel,
    var: Seq<char>,
    field: Seq<char>,
    e: ElementModel,
    binds: BindsModel,
    other: Seq<char>,
)
    ensures
        captured(Seq::empty(), e, binds) == binds,
        (e.fields)(field).len() > 0 ==> find(captured(bind.push((var, field)), e, binds), var)
            == Some((e.fields)(field)[0]),
        (e.fields)(field).len() == 0 || other != var ==> find(
            captured(bind.push((var, field)), e, binds),
            other,
        ) == find(captured(bind, e, binds), other),
{
    let more = bind.push((var, field));
    assert(more.drop_last() =~= bind);
    let before = captured(bind, e, binds);
    if (e.fields)(field).len() > 0 {
        find_after_put(before, var, (e.fields)(field)[0], var);
        find_after_put(before, var, (e.fields)(field)[0], other);
    }
}

/// What is found under a name is what the list holds under it first.
pub proof fn finding_finds_the_first<M>(s: Seq<(Seq<char>, M)>, k: Seq<char>)
    ensures
        match find(s, k) {
            Some(m) => exists|i: int|
                0 <= i < s.len() && #[trigger] s[i] == (k, m) && forall|j: int|
                    0 <= j < i ==> (#[trigger] s[j]).0 != k,
            None => forall|j: int| 0 <= j < s.len() ==> (#[trigger] s[j]).0 != k,
        },
    decreases s.len(),
{
    if s.len() > 0 {
        if s[0].0 == k {
            assert(s[0] == (k, s[0].1));
        } else {
            let t = s.drop_first();
            finding_finds_the_first(t, k);
            match find(t, k) {
                Some(m) => {
                    let i = choose|i: int|
                        0 <= i < t.len() && #[trigger] t[i] == (k, m) && forall|j: int|
                            0 <= j < i ==> (#[trigger] t[j]).0 != k;
                    assert(s[i + 1] == (k, m));
                    assert forall|j: int| 0 <= j < i + 1 implies (#[trigger] s[j]).0 != k by {
                        if j > 0 {
                            assert(t[j - 1] == s[j]);
                        }
                    }
                },
                None => {
                    assert forall|j: int| 0 <= j < s.len() implies (#[trigger] s[j]).0 != k by {
                        if j > 0 {
                            assert(t[j - 1] == s[j]);
                        }
                    }
                },
            }
        }
    }
}

} // verus!
