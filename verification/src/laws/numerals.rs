//! The numbers that texts denote in comparisons.

use vstd::prelude::*;

use crate::number::{decimal_of_text, first_of, number_of, place_of, with_sign, Number};
use crate::text::{all_digits, ascii_lower_text, digits_value};

verus! {

/// Whether a text is made of the digits from `0` to `9`.
pub open spec fn digits(s: Seq<char>) -> bool {
    forall|i: int| 0 <= i < s.len() ==> '0' <= #[trigger] s[i] <= '9'
}

proof fn lemma_first(s: Seq<char>, a: char, b: char, i: int, n: int)
    requires
        0 <= i <= n <= s.len(),
        forall|k: int| i <= k < n ==> #[trigger] s[k] != a && s[k] != b,
        n == s.len() || s[n] == a || s[n] == b,
    ensures
        first_of(s, a, b, i) == n,
    decreases n - i,
{
    if i < n {
        assert(s[i] != a && s[i] != b);
        lemma_first(s, a, b, i + 1, n);
    }
}

proof fn lemma_not_special(s: Seq<char>)
    requires
        s.len() > 0,
        '0' <= s[0] <= '9' || s[0] == '.',
    ensures
        ascii_lower_text(s) != "inf"@,
        ascii_lower_text(s) != "infinity"@,
        ascii_lower_text(s) != "nan"@,
        crate::number::unsigned(s) == s,
        !crate::number::signed(s),
{
    reveal_strlit("inf");
    reveal_strlit("infinity");
    reveal_strlit("nan");
    assert(ascii_lower_text(s)[0] == s[0]);
    assert("inf"@[0] == 'i' && "infinity"@[0] == 'i' && "nan"@[0] == 'n');
}

/// Digits with a point among them denote the number of all the digits, divided by ten for each
/// digit behind the point; without a point, the number of the digits.
pub proof fn points_divide(a: Seq<char>, b: Seq<char>)
    requires
        digits(a),
        digits(b),
        a.len() + b.len() > 0,
    ensures
        number_of(a + seq!['.'] + b) == Some(
            Number { place: Some(place_of(digits_value(a + b), -(b.len() as int)) as i64) },
        ),
        b.len() == 0 ==> number_of(a) == Some(
            Number { place: Some(place_of(digits_value(a), 0) as i64) },
        ),
{
    let s = a + seq!['.'] + b;
    let n = a.len() as int;
    assert forall|k: int| 0 <= k < s.len() implies s[k] != 'e' && s[k] != 'E' && (k != n ==> s[k]
        != '.') by {
        if k < n {
            assert(s[k] == a[k]);
        } else if k > n {
            assert(s[k] == b[k - n - 1]);
        }
    }
    assert(s[n] == '.');
    if n > 0 {
        assert(s[0] == a[0]);
    }
    lemma_not_special(s);
    lemma_first(s, 'e', 'E', 0, s.len() as int);
    assert(s.take(s.len() as int) =~= s);
    lemma_first(s, '.', '.', 0, n);
    assert(s.take(n) =~= a);
    assert(s.skip(n + 1) =~= b);
    assert(all_digits(a + b));
    if b.len() == 0 {
        assert(a + b =~= a);
        lemma_not_special(a);
        lemma_first(a, 'e', 'E', 0, n);
        assert(a.take(n) =~= a);
        lemma_first(a, '.', '.', 0, n);
        assert(all_digits(a));
    }
}

/// An exponent multiplies by a power of ten, or divides where it is negative.
pub proof fn exponents_scale(a: Seq<char>, e: char, k: Seq<char>)
    requires
        digits(a),
        digits(k),
        a.len() > 0,
        k.len() > 0,
        e == 'e' || e == 'E',
    ensures
        number_of(a + seq![e] + k) == Some(
            Number { place: Some(place_of(digits_value(a), digits_value(k) as int) as i64) },
        ),
        number_of(a + seq![e, '-'] + k) == Some(
            Number { place: Some(place_of(digits_value(a), -(digits_value(k) as int)) as i64) },
        ),
{
    let n = a.len() as int;
    lemma_first(a, '.', '.', 0, n);
    assert(all_digits(a) && all_digits(k));
    let s = a + seq![e] + k;
    assert(s[0] == a[0] && s[n] == e);
    assert forall|i: int| 0 <= i < n implies #[trigger] s[i] != 'e' && s[i] != 'E' by {
        assert(s[i] == a[i]);
    }
    lemma_not_special(s);
    lemma_first(s, 'e', 'E', 0, n);
    assert(s.take(n) =~= a);
    assert(s.skip(n + 1) =~= k);
    assert(k[0] != '-' && k[0] != '+');
    let u = a + seq![e, '-'] + k;
    assert(u[0] == a[0] && u[n] == e);
    assert forall|i: int| 0 <= i < n implies #[trigger] u[i] != 'e' && u[i] != 'E' by {
        assert(u[i] == a[i]);
    }
    lemma_not_special(u);
    lemma_first(u, 'e', 'E', 0, n);
    assert(u.take(n) =~= a);
    let x = u.skip(n + 1);
    assert(x =~= seq!['-'] + k);
    assert(x.drop_first() =~= k);
}

/// A minus sign turns a number around, and a plus sign leaves it as it is.
pub proof fn signs_turn_numbers_around(s: Seq<char>, p: int)
    requires
        s.len() > 0,
        '0' <= s[0] <= '9' || s[0] == '.',
        number_of(s) == Some(Number { place: Some(p as i64) }),
        decimal_of_text(s) is Some,
        place_of((decimal_of_text(s)->0).0, (decimal_of_text(s)->0).1) == p,
    ensures
        number_of(seq!['-'] + s) == Some(Number { place: Some((-p) as i64) }),
        number_of(seq!['+'] + s) == Some(Number { place: Some(p as i64) }),
{
    lemma_not_special(s);
    let m = seq!['-'] + s;
    let q = seq!['+'] + s;
    assert(m.drop_first() =~= s && q.drop_first() =~= s);
    assert(with_sign(m, p) == (Number { place: Some((-p) as i64) }));
}

} // verus!
