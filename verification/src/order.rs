//! Lexicographic order, and small maps that keep their keys in that order.

use vstd::prelude::*;

use crate::text::{same, to_chars, Order};

verus! {

/// A strict total order.
pub open spec fn strict_total<T>(lt: spec_fn(T, T) -> bool) -> bool {
    &&& forall|x: T| !#[trigger] lt(x, x)
    &&& forall|x: T, y: T| x == y || #[trigger] lt(x, y) || lt(y, x)
    &&& forall|x: T, y: T, z: T| #[trigger] lt(x, y) && #[trigger] lt(y, z) ==> lt(x, z)
}

/// The lexicographic order on sequences over an order on their items.
pub open spec fn lex_lt<T>(a: Seq<T>, b: Seq<T>, lt: spec_fn(T, T) -> bool) -> bool
    decreases a.len(),
{
    if b.len() == 0 {
        false
    } else if a.len() == 0 {
        true
    } else if a[0] != b[0] {
        lt(a[0], b[0])
    } else {
        lex_lt(a.drop_first(), b.drop_first(), lt)
    }
}

proof fn lemma_lex_irreflexive<T>(a: Seq<T>, lt: spec_fn(T, T) -> bool)
    ensures
        !lex_lt(a, a, lt),
    decreases a.len(),
{
    if a.len() > 0 {
        lemma_lex_irreflexive(a.drop_first(), lt);
    }
}

proof fn lemma_lex_connected<T>(a: Seq<T>, b: Seq<T>, lt: spec_fn(T, T) -> bool)
    requires
        strict_total(lt),
    ensures
        a == b || lex_lt(a, b, lt) || lex_lt(b, a, lt),
    decreases a.len(),
{
    if a.len() > 0 && b.len() > 0 {
        if a[0] == b[0] {
            lemma_lex_connected(a.drop_first(), b.drop_first(), lt);
            if a.drop_first() == b.drop_first() {
                assert(a == seq![a[0]] + a.drop_first());
                assert(b == seq![b[0]] + b.drop_first());
            }
        } else {
            assert(lt(a[0], b[0]) || lt(b[0], a[0]));
        }
    } else if a.len() == 0 && b.len() == 0 {
        assert(a == b);
    }
}

proof fn lemma_lex_transitive<T>(a: Seq<T>, b: Seq<T>, c: Seq<T>, lt: spec_fn(T, T) -> bool)
    requires
        strict_total(lt),
        lex_lt(a, b, lt),
        lex_lt(b, c, lt),
    ensures
        lex_lt(a, c, lt),
    decreases a.len(),
{
    if a.len() > 0 {
        if a[0] == b[0] && b[0] == c[0] {
            lemma_lex_transitive(a.drop_first(), b.drop_first(), c.drop_first(), lt);
        } else if a[0] != b[0] && b[0] != c[0] {
            assert(lt(a[0], b[0]) && lt(b[0], c[0]));
            assert(lt(a[0], c[0]));
            assert(!lt(a[0], a[0]));
        }
    }
}

/// The lexicographic order over a strict total order is itself one.
pub proof fn lex_is_strict_total<T>(lt: spec_fn(T, T) -> bool)
    requires
        strict_total(lt),
    ensures
        strict_total(|a: Seq<T>, b: Seq<T>| lex_lt(a, b, lt)),
{
    let lex = |a: Seq<T>, b: Seq<T>| lex_lt(a, b, lt);
    assert forall|x: Seq<T>| !#[trigger] lex(x, x) by {
        lemma_lex_irreflexive(x, lt);
    }
    assert forall|x: Seq<T>, y: Seq<T>| x == y || #[trigger] lex(x, y) || lex(y, x) by {
        lemma_lex_connected(x, y, lt);
    }
    assert forall|x: Seq<T>, y: Seq<T>, z: Seq<T>| #[trigger]
        lex(x, y) && #[trigger] lex(y, z) implies lex(x, z) by {
        lemma_lex_transitive(x, y, z, lt);
    }
}

/// The order of characters by code point.
pub open spec fn char_lt() -> spec_fn(char, char) -> bool {
    |x: char, y: char| x < y
}

/// The order of strings: lexicographic by code point.
pub open spec fn text_lt(a: Seq<char>, b: Seq<char>) -> bool {
    lex_lt(a, b, char_lt())
}

/// The order of strings, as a function value.
pub open spec fn text_order() -> spec_fn(Seq<char>, Seq<char>) -> bool {
    |a: Seq<char>, b: Seq<char>| text_lt(a, b)
}

/// The order of lists of strings.
pub open spec fn key_lt(a: Seq<Seq<char>>, b: Seq<Seq<char>>) -> bool {
    lex_lt(a, b, text_order())
}

/// The order of lists of strings, as a function value.
pub open spec fn key_order() -> spec_fn(Seq<Seq<char>>, Seq<Seq<char>>) -> bool {
    |a: Seq<Seq<char>>, b: Seq<Seq<char>>| key_lt(a, b)
}

/// Strings are totally ordered.
pub proof fn text_order_is_total()
    ensures
        strict_total(text_order()),
{
    assert(strict_total(char_lt()));
    lex_is_strict_total(char_lt());
    let lex = |a: Seq<char>, b: Seq<char>| lex_lt(a, b, char_lt());
    assert(lex =~= text_order());
}

/// Lists of strings are totally ordered.
pub proof fn key_order_is_total()
    ensures
        strict_total(key_order()),
{
    text_order_is_total();
    lex_is_strict_total(text_order());
    let lex = |a: Seq<Seq<char>>, b: Seq<Seq<char>>| lex_lt(a, b, text_order());
    assert(lex =~= key_order());
}

pub proof fn lemma_lex_skip<T>(a: Seq<T>, b: Seq<T>, k: int, lt: spec_fn(T, T) -> bool)
    requires
        0 <= k <= a.len(),
        k <= b.len(),
        forall|i: int| 0 <= i < k ==> a[i] == b[i],
    ensures
        lex_lt(a, b, lt) == lex_lt(a.skip(k), b.skip(k), lt),
        a.skip(k) == b.skip(k) ==> a == b,
    decreases k,
{
    if k == 0 {
        assert(a.skip(0) == a && b.skip(0) == b);
    } else {
        lemma_lex_skip(a.drop_first(), b.drop_first(), k - 1, lt);
        assert(a.drop_first().skip(k - 1) == a.skip(k));
        assert(b.drop_first().skip(k - 1) == b.skip(k));
        assert(a[0] == b[0]);
        if a.skip(k) == b.skip(k) {
            assert(a == seq![a[0]] + a.drop_first());
            assert(b == seq![b[0]] + b.drop_first());
        }
    }
}

/// Compares two strings.
pub fn compare_text(a: &str, b: &str) -> (r: Order)
    ensures
        match r {
            Order::Less => text_lt(a@, b@),
            Order::Equal => a@ == b@,
            Order::Greater => text_lt(b@, a@),
        },
{
    let x = to_chars(a);
    let y = to_chars(b);
    let mut i: usize = 0;
    while i < x.len() && i < y.len()
        invariant
            x@ == a@,
            y@ == b@,
            i <= x@.len(),
            i <= y@.len(),
            forall|k: int| 0 <= k < i ==> x@[k] == y@[k],
        decreases x@.len() - i,
    {
        if x[i] != y[i] {
            proof {
                lemma_lex_skip(a@, b@, i as int, char_lt());
                lemma_lex_skip(b@, a@, i as int, char_lt());
            }
            if x[i] < y[i] {
                return Order::Less;
            } else {
                return Order::Greater;
            }
        }
        i += 1;
    }
    proof {
        lemma_lex_skip(a@, b@, i as int, char_lt());
        lemma_lex_skip(b@, a@, i as int, char_lt());
        if x@.len() == y@.len() {
            assert(a@ == b@);
        }
    }
    if i < y.len() {
        Order::Less
    } else if i < x.len() {
        Order::Greater
    } else {
        Order::Equal
    }
}

/// Compares two lists of strings.
pub fn compare_key(a: &Vec<String>, b: &Vec<String>) -> (r: Order)
    ensures
        match r {
            Order::Less => key_lt(crate::text::texts(a@), crate::text::texts(b@)),
            Order::Equal => crate::text::texts(a@) == crate::text::texts(b@),
            Order::Greater => key_lt(crate::text::texts(b@), crate::text::texts(a@)),
        },
{
    let ghost ta = crate::text::texts(a@);
    let ghost tb = crate::text::texts(b@);
    proof {
        text_order_is_total();
    }
    let mut i: usize = 0;
    while i < a.len() && i < b.len()
        invariant
            i <= a@.len(),
            i <= b@.len(),
            ta == crate::text::texts(a@),
            tb == crate::text::texts(b@),
            strict_total(text_order()),
            forall|k: int| 0 <= k < i ==> ta[k] == tb[k],
        decreases a@.len() - i,
    {
        let c = compare_text(a[i].as_str(), b[i].as_str());
        proof {
            lemma_lex_skip(ta, tb, i as int, text_order());
            lemma_lex_skip(tb, ta, i as int, text_order());
            assert(!text_order()(ta[i as int], ta[i as int]));
        }
        match c {
            Order::Less => {
                return Order::Less;
            },
            Order::Greater => {
                return Order::Greater;
            },
            Order::Equal => {},
        }
        i += 1;
    }
    proof {
        lemma_lex_skip(ta, tb, i as int, text_order());
        lemma_lex_skip(tb, ta, i as int, text_order());
        if a@.len() == b@.len() {
            assert(ta == tb);
        }
    }
    if i < b.len() {
        Order::Less
    } else if i < a.len() {
        Order::Greater
    } else {
        Order::Equal
    }
}

// ---------------------------------------------------------------------------
// Association lists kept in the order of their keys
// ---------------------------------------------------------------------------

/// Stores `m` under `k`: the entry of `k` is replaced, or a new one takes the
/// place that the order of keys gives it.
pub open spec fn put<M>(s: Seq<(Seq<char>, M)>, k: Seq<char>, m: M) -> Seq<(Seq<char>, M)>
    decreases s.len(),
{
    if s.len() == 0 {
        seq![(k, m)]
    } else if s[0].0 == k {
        seq![(k, m)] + s.drop_first()
    } else if text_lt(k, s[0].0) {
        seq![(k, m)] + s
    } else {
        seq![s[0]] + put(s.drop_first(), k, m)
    }
}

/// Adds `m` under `k` and keeps what is stored under `k` already: the new entry
/// follows every entry whose key is not greater.
pub open spec fn also<M>(s: Seq<(Seq<char>, M)>, k: Seq<char>, m: M) -> Seq<(Seq<char>, M)>
    decreases s.len(),
{
    if s.len() == 0 {
        seq![(k, m)]
    } else if text_lt(k, s[0].0) {
        seq![(k, m)] + s
    } else {
        seq![s[0]] + also(s.drop_first(), k, m)
    }
}

/// What is stored under `k`, if anything.
pub open spec fn find<M>(s: Seq<(Seq<char>, M)>, k: Seq<char>) -> Option<M>
    decreases s.len(),
{
    if s.len() == 0 {
        None
    } else if s[0].0 == k {
        Some(s[0].1)
    } else {
        find(s.drop_first(), k)
    }
}

/// Whether the keys stand in strictly increasing order.
pub open spec fn keys_increase<M>(s: Seq<(Seq<char>, M)>) -> bool {
    forall|i: int, j: int| 0 <= i < j < s.len() ==> text_lt(#[trigger] s[i].0, #[trigger] s[j].0)
}

/// Storing changes what is found under the key, and nothing else.
pub proof fn find_after_put<M>(s: Seq<(Seq<char>, M)>, k: Seq<char>, m: M, q: Seq<char>)
    ensures
        find(put(s, k, m), q) == (if q == k {
            Some(m)
        } else {
            find(s, q)
        }),
    decreases s.len(),
{
    if s.len() == 0 {
        assert(put(s, k, m).drop_first() == s);
    } else if s[0].0 == k {
        assert(put(s, k, m).drop_first() == s.drop_first());
    } else if text_lt(k, s[0].0) {
        assert(put(s, k, m).drop_first() == s);
    } else {
        assert(put(s, k, m).drop_first() == put(s.drop_first(), k, m));
        find_after_put(s.drop_first(), k, m, q);
    }
}

proof fn lemma_put_keys<M>(s: Seq<(Seq<char>, M)>, k: Seq<char>, m: M)
    ensures
        forall|i: int|
            0 <= i < put(s, k, m).len() ==> (#[trigger] put(s, k, m)[i]).0 == k || exists|j: int|
                0 <= j < s.len() && #[trigger] s[j].0 == put(s, k, m)[i].0,
    decreases s.len(),
{
    let p = put(s, k, m);
    if s.len() > 0 && s[0].0 != k && !text_lt(k, s[0].0) {
        lemma_put_keys(s.drop_first(), k, m);
        let q = put(s.drop_first(), k, m);
        assert forall|i: int| 0 <= i < p.len() implies (#[trigger] p[i]).0 == k || exists|j: int|
            0 <= j < s.len() && #[trigger] s[j].0 == p[i].0 by {
            if i == 0 {
                assert(s[0].0 == p[0].0);
            } else {
                assert(p[i] == q[i - 1]);
                if p[i].0 != k {
                    let j = choose|j: int|
                        0 <= j < s.drop_first().len() && #[trigger] s.drop_first()[j].0 == q[i - 1].0;
                    assert(s[j + 1].0 == p[i].0);
                }
            }
        }
    } else {
        assert forall|i: int| 0 <= i < p.len() implies (#[trigger] p[i]).0 == k || exists|j: int|
            0 <= j < s.len() && #[trigger] s[j].0 == p[i].0 by {
            if i > 0 {
                if s.len() > 0 && s[0].0 == k {
                    assert(p[i] == s[i]);
                } else if s.len() > 0 {
                    assert(p[i] == s[i - 1]);
                }
            }
        }
    }
}

/// Storing keeps the keys in order.
pub proof fn put_keeps_order<M>(s: Seq<(Seq<char>, M)>, k: Seq<char>, m: M)
    requires
        keys_increase(s),
    ensures
        keys_increase(put(s, k, m)),
    decreases s.len(),
{
    text_order_is_total();
    let lt = text_order();
    let p = put(s, k, m);
    if s.len() == 0 {
    } else if s[0].0 == k {
        assert forall|i: int, j: int| 0 <= i < j < p.len() implies text_lt(
            #[trigger] p[i].0,
            #[trigger] p[j].0,
        ) by {
            assert(p[i].0 == s[i].0 && p[j].0 == s[j].0);
        }
    } else if text_lt(k, s[0].0) {
        assert forall|i: int, j: int| 0 <= i < j < p.len() implies text_lt(
            #[trigger] p[i].0,
            #[trigger] p[j].0,
        ) by {
            assert(p[j] == s[j - 1]);
            if i == 0 {
                if j > 1 {
                    assert(lt(k, s[0].0) && lt(s[0].0, s[j - 1].0));
                }
            } else {
                assert(p[i] == s[i - 1]);
            }
        }
    } else {
        let t = s.drop_first();
        assert forall|i: int, j: int| 0 <= i < j < t.len() implies text_lt(
            #[trigger] t[i].0,
            #[trigger] t[j].0,
        ) by {
            assert(t[i] == s[i + 1] && t[j] == s[j + 1]);
        }
        put_keeps_order(t, k, m);
        lemma_put_keys(t, k, m);
        let q = put(t, k, m);
        assert(lt(s[0].0, k) || lt(k, s[0].0));
        assert forall|i: int, j: int| 0 <= i < j < p.len() implies text_lt(
            #[trigger] p[i].0,
            #[trigger] p[j].0,
        ) by {
            assert(p[j] == q[j - 1]);
            if i == 0 {
                if q[j - 1].0 != k {
                    let x = choose|x: int| 0 <= x < t.len() && #[trigger] t[x].0 == q[j - 1].0;
                    assert(t[x] == s[x + 1]);
                    assert(text_lt(s[0].0, s[x + 1].0));
                }
            } else {
                assert(p[i] == q[i - 1]);
            }
        }
    }
}

/// An association list from strings to values, in the order of the keys.
#[derive(Debug)]
pub struct TextMap<V> {
    pub entries: Vec<(String, V)>,
}

/// One entry of an association list, by its views.
pub open spec fn entry_view<V: View>(e: (String, V)) -> (Seq<char>, V::V) {
    (e.0@, e.1@)
}

impl<V: View> View for TextMap<V> {
    type V = Seq<(Seq<char>, V::V)>;

    open spec fn view(&self) -> Seq<(Seq<char>, V::V)> {
        Seq::new(self.entries@.len(), |i: int| entry_view(self.entries@[i]))
    }
}

impl<V: View> TextMap<V> {
    /// The empty list.
    pub fn new() -> (r: Self)
        ensures
            r@ == Seq::<(Seq<char>, V::V)>::empty(),
    {
        TextMap { entries: Vec::new() }
    }

    /// Stores a value under a key, in place of what was stored there.
    pub fn insert(&mut self, k: String, v: V)
        ensures
            final(self)@ == put(old(self)@, k@, v@),
    {
        let ghost s = self@;
        let mut i: usize = 0;
        proof {
            text_order_is_total();
            assert(s.skip(0) == s);
        }
        while i < self.entries.len()
            invariant
                i <= self.entries@.len(),
                s == self@,
                *self == *old(self),
                strict_total(text_order()),
                put(s, k@, v@) == s.take(i as int) + put(s.skip(i as int), k@, v@),
            decreases self.entries@.len() - i,
        {
            assert(s[i as int] == entry_view(self.entries@[i as int]));
            assert(s.skip(i as int)[0] == s[i as int]);
            assert(s.skip(i as int).drop_first() == s.skip(i + 1));
            match compare_text(k.as_str(), self.entries[i].0.as_str()) {
                Order::Equal => {
                    self.entries[i] = (k, v);
                    assert(self@ == s.take(i as int) + (seq![(k@, v@)] + s.skip(i + 1)));
                    return ;
                },
                Order::Less => {
                    self.entries.insert(i, (k, v));
                    assert(!text_order()(k@, k@));
                    assert(self@ == s.take(i as int) + (seq![(k@, v@)] + s.skip(i as int)));
                    return ;
                },
                Order::Greater => {
                    assert(!text_order()(k@, k@));
                    proof {
                        if text_order()(k@, s[i as int].0) {
                            assert(text_order()(s[i as int].0, k@));
                            assert(text_order()(k@, k@));
                        }
                    }
                    assert(s.take(i as int) + (seq![s[i as int]] + put(s.skip(i + 1), k@, v@))
                        == s.take(i + 1) + put(s.skip(i + 1), k@, v@));
                },
            }
            i += 1;
        }
        self.entries.push((k, v));
        assert(s.skip(i as int).len() == 0);
        assert(self@ == s.take(i as int) + seq![(k@, v@)]);
    }

    /// Adds a value under a key, after what is stored there already.
    pub fn add(&mut self, k: String, v: V)
        ensures
            final(self)@ == also(old(self)@, k@, v@),
    {
        let ghost s = self@;
        let mut i: usize = 0;
        proof {
            text_order_is_total();
            assert(s.skip(0) == s);
        }
        while i < self.entries.len()
            invariant
                i <= self.entries@.len(),
                s == self@,
                *self == *old(self),
                strict_total(text_order()),
                also(s, k@, v@) == s.take(i as int) + also(s.skip(i as int), k@, v@),
            decreases self.entries@.len() - i,
        {
            assert(s[i as int] == entry_view(self.entries@[i as int]));
            assert(s.skip(i as int)[0] == s[i as int]);
            assert(s.skip(i as int).drop_first() == s.skip(i + 1));
            let c = compare_text(k.as_str(), self.entries[i].0.as_str());
            if c == Order::Less {
                self.entries.insert(i, (k, v));
                assert(self@ == s.take(i as int) + (seq![(k@, v@)] + s.skip(i as int)));
                return ;
            }
            proof {
                assert(!text_order()(k@, k@));
                if text_order()(k@, s[i as int].0) {
                    assert(k@ == s[i as int].0 || text_order()(s[i as int].0, k@));
                    assert(text_order()(k@, k@));
                }
            }
            assert(s.take(i as int) + (seq![s[i as int]] + also(s.skip(i + 1), k@, v@)) == s.take(i + 1)
                + also(s.skip(i + 1), k@, v@));
            i += 1;
        }
        self.entries.push((k, v));
        assert(s.skip(i as int).len() == 0);
        assert(self@ == s.take(i as int) + seq![(k@, v@)]);
    }

    /// The value stored under a key.
    pub fn get(&self, k: &str) -> (r: Option<&V>)
        ensures
            match r {
                Some(v) => find(self@, k@) == Some(v@),
                None => find(self@, k@) is None,
            },
    {
        let ghost s = self@;
        let mut i: usize = 0;
        assert(s.skip(0) == s);
        while i < self.entries.len()
            invariant
                i <= self.entries@.len(),
                s == self@,
                find(s, k@) == find(s.skip(i as int), k@),
            decreases self.entries@.len() - i,
        {
            assert(s.skip(i as int)[0] == s[i as int]);
            assert(s[i as int] == entry_view(self.entries@[i as int]));
            assert(s.skip(i as int).drop_first() == s.skip(i + 1));
            if same(self.entries[i].0.as_str(), k) {
                return Some(&self.entries[i].1);
            }
            i += 1;
        }
        None
    }
}

} // verus!
