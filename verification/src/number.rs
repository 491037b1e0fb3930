//! Numbers for comparisons: decimal numerals rounded to double precision.
//!
//! A number is held as its place in the order of the doubles. The doubles from
//! zero to infinity are counted 0, 1, 2, …, and a negative number has the negated
//! place, so that comparing places compares the numbers.

use vstd::prelude::*;

use crate::bignum::{
    big,
    compare_big,
    lemma_power_add,
    lemma_power_grows,
    lemma_power_positive,
    power,
    scale,
    shift,
    shift_ten,
    Big,
};
use crate::text::{
    all_digits,
    ascii_lower_text,
    digit_ok,
    digits_value,
    is_digit,
    lower,
    same,
    slice_text,
    to_chars,
    Order,
};

verus! {

/// A number in double precision; no place means not-a-number.
#[derive(Debug, Clone, Copy, PartialEq, Eq, Structural)]
pub struct Number {
    pub place: Option<i64>,
}

/// The place of infinity.
pub const INFINITE: i64 = 0x7ff0_0000_0000_0000;

/// The number of doubles with one exponent.
pub const STEP: i64 = 0x10_0000_0000_0000;

/// The double at a place, times 2^1074: a natural number.
pub open spec fn scaled(k: int) -> nat {
    let e = k / (STEP as int);
    let f = k % (STEP as int);
    if e <= 0 {
        f as nat
    } else {
        ((STEP + f) as nat) * power(2, (e - 1) as nat)
    }
}

/// Whether `num / den` rounds to a place above `j`: it exceeds the midpoint of the
/// doubles at `j` and `j + 1`, or is that midpoint and `j` is odd.
pub open spec fn above(num: nat, den: nat, j: int) -> bool {
    let v = 2 * num * power(2, 1074);
    let m = (scaled(j) + scaled(j + 1)) * den;
    v > m || (v == m && j % 2 == 1)
}

/// Whether the double at place `k` is the nearest one to `num / den`, with ties
/// going to the even place.
pub open spec fn nearest(num: nat, den: nat, k: int) -> bool {
    &&& 0 <= k <= INFINITE
    &&& k == 0 || above(num, den, k - 1)
    &&& k == INFINITE || !above(num, den, k)
}

/// The numerator of `digits * 10^exp`.
pub open spec fn numerator(digits: nat, exp: int) -> nat {
    if exp >= 0 {
        digits * power(10, exp as nat)
    } else {
        digits
    }
}

/// The denominator of `digits * 10^exp`.
pub open spec fn denominator(exp: int) -> nat {
    if exp >= 0 {
        1
    } else {
        power(10, (-exp) as nat)
    }
}

/// The place of the double nearest to `digits * 10^exp`.
pub open spec fn place_of(digits: nat, exp: int) -> int {
    choose|k: int| nearest(numerator(digits, exp), denominator(exp), k)
}

// The midpoint above place `j`, times 2^1075.
spec fn odd_part(j: int) -> nat {
    let e = j / (STEP as int);
    let f = j % (STEP as int);
    if e <= 0 {
        (2 * f + 1) as nat
    } else {
        (2 * (STEP + f) + 1) as nat
    }
}

spec fn two_part(j: int) -> nat {
    let e = j / (STEP as int);
    if e <= 1 {
        0
    } else {
        (e - 1) as nat
    }
}

proof fn lemma_midpoint(j: int)
    requires
        0 <= j,
    ensures
        scaled(j) + scaled(j + 1) == odd_part(j) * power(2, two_part(j)),
        scaled(j) < scaled(j + 1),
{
    let s = STEP as int;
    let e = j / s;
    let f = j % s;
    assert(power(2, 0) == 1);
    lemma_power_positive(2, two_part(j));
    let p = power(2, two_part(j));
    if f + 1 < s {
        assert((j + 1) / s == e && (j + 1) % s == f + 1) by (nonlinear_arith)
            requires
                e == j / s,
                f == j % s,
                f + 1 < s,
                s == 0x10_0000_0000_0000,
        ;
        if e >= 1 {
            assert((s + f) * p + (s + f + 1) * p == (2 * (s + f) + 1) * p) by (nonlinear_arith);
            assert((s + f) * p < (s + f + 1) * p) by (nonlinear_arith)
                requires
                    p > 0,
            ;
        } else {
            assert((2 * f + 1) * 1 == 2 * f + 1);
        }
    } else {
        assert((j + 1) / s == e + 1 && (j + 1) % s == 0) by (nonlinear_arith)
            requires
                e == j / s,
                f == j % s,
                f + 1 == s,
                s == 0x10_0000_0000_0000,
        ;
        if e >= 1 {
            assert(power(2, e as nat) == 2 * p);
            assert((s + f) * p + s * (2 * p) == (2 * (s + f) + 1) * p) by (nonlinear_arith)
                requires
                    f + 1 == s,
            ;
            assert((s + f) * p < s * (2 * p)) by (nonlinear_arith)
                requires
                    p > 0,
                    f + 1 == s,
            ;
        } else {
            assert(s * 1 == s && (2 * f + 1) * 1 == 2 * f + 1);
        }
    }
}

proof fn lemma_above_down(num: nat, den: nat, i: int, j: int)
    requires
        0 <= i <= j,
        den > 0,
        above(num, den, j),
    ensures
        above(num, den, i),
    decreases j - i,
{
    if i < j {
        lemma_midpoint(j - 1);
        lemma_midpoint(j);
        let a = scaled(j - 1) + scaled(j);
        let b = scaled(j) + scaled(j + 1);
        assert(a * den < b * den) by (nonlinear_arith)
            requires
                a < b,
                den > 0,
        ;
        lemma_above_down(num, den, i, j - 1);
    }
}

/// Rounding has one result.
pub proof fn nearest_is_unique(num: nat, den: nat, k: int, l: int)
    requires
        den > 0,
        nearest(num, den, k),
        nearest(num, den, l),
    ensures
        k == l,
{
    if k < l {
        lemma_above_down(num, den, k, l - 1);
    } else if l < k {
        lemma_above_down(num, den, l, k - 1);
    }
}

proof fn lemma_denominator(exp: int)
    ensures
        denominator(exp) > 0,
{
    if exp < 0 {
        lemma_power_positive(10, (-exp) as nat);
    }
}

proof fn lemma_place(digits: nat, exp: int, k: int)
    requires
        nearest(numerator(digits, exp), denominator(exp), k),
    ensures
        place_of(digits, exp) == k,
{
    lemma_denominator(exp);
    nearest_is_unique(numerator(digits, exp), denominator(exp), k, place_of(digits, exp));
}

fn is_above(v: &Big, den: &Big, j: i64, num: Ghost<nat>) -> (r: bool)
    requires
        0 <= j < INFINITE,
        v@ == 2 * num@ * power(2, 1074),
    ensures
        r == above(num@, den@, j as int),
{
    let e: i64 = j / STEP;
    let f: i64 = j % STEP;
    let odd: u64 = if e == 0 {
        (2 * f + 1) as u64
    } else {
        (2 * (STEP + f) + 1) as u64
    };
    let two: u64 = if e <= 1 {
        0
    } else {
        (e - 1) as u64
    };
    let m = shift(scale(den, odd, 0), two);
    proof {
        lemma_midpoint(j as int);
        let d = den@;
        let o = odd as nat;
        let p = power(2, two as nat);
        assert((d * o) * p == (o * p) * d) by (nonlinear_arith);
    }
    match compare_big(v, &m) {
        Order::Greater => true,
        Order::Equal => j % 2 == 1,
        Order::Less => false,
    }
}

fn search(digits: Big, exp: i128) -> (r: i64)
    requires
        -0x1_0000_0000_0000_0000_0000_0000 < exp < 0x1_0000_0000_0000_0000_0000_0000,
    ensures
        0 <= r <= INFINITE,
        r == place_of(digits@, exp as int),
{
    let ghost num = numerator(digits@, exp as int);
    let ghost d = digits@;
    let (top, den) = if exp >= 0 {
        (shift_ten(digits, exp as u128), big(1))
    } else {
        let p = shift_ten(big(1), (-exp) as u128);
        assert(1 * power(10, (-exp) as nat) == power(10, (-exp) as nat));
        (digits, p)
    };
    let v = shift(top, 1075);
    proof {
        let p = power(2, 1074);
        assert(power(2, 1075) == 2 * p);
        assert(num * (2 * p) == 2 * num * p) by (nonlinear_arith);
        lemma_denominator(exp as int);
    }
    let mut lo: i64 = 0;
    let mut hi: i64 = INFINITE;
    while lo < hi
        invariant
            0 <= lo <= hi <= INFINITE,
            v@ == 2 * num * power(2, 1074),
            den@ == denominator(exp as int),
            lo == 0 || above(num, den@, lo - 1),
            hi == INFINITE || !above(num, den@, hi as int),
        decreases hi - lo,
    {
        let mid: i64 = lo + (hi - lo) / 2;
        if is_above(&v, &den, mid, Ghost(num)) {
            lo = mid + 1;
        } else {
            hi = mid;
        }
    }
    proof {
        lemma_place(d, exp as int, lo as int);
    }
    lo
}

proof fn lemma_power_eight(n: nat)
    ensures
        power(2, 3 * n) == power(8, n),
        power(8, n) <= power(10, n),
    decreases n,
{
    if n > 0 {
        let m = (n - 1) as nat;
        lemma_power_eight(m);
        lemma_power_add(2, 3, 3 * m);
        assert(power(2, 3) == 8) by {
            reveal_with_fuel(power, 4);
        }
        let x = power(8, m);
        let y = power(10, m);
        assert(8 * x <= 10 * y) by (nonlinear_arith)
            requires
                x <= y,
        ;
    }
}

proof fn lemma_two_to_52()
    ensures
        power(2, 52) == 0x10_0000_0000_0000,
{
    reveal_with_fuel(power, 53);
}

// The midpoint below infinity.
proof fn lemma_top_midpoint()
    ensures
        scaled(INFINITE - 1) + scaled(INFINITE as int) < power(2, 1026) * power(2, 1074),
{
    lemma_midpoint(INFINITE - 1);
    assert((INFINITE as int) / (STEP as int) == 2047);
    assert((INFINITE as int) % (STEP as int) == 0);
    assert(scaled(INFINITE as int) == (STEP as nat) * power(2, 2046));
    lemma_two_to_52();
    lemma_power_add(2, 52, 2046);
    lemma_power_add(2, 1026, 1074);
    assert(power(2, 2099) == 2 * power(2, 2098));
    assert(power(2, 2100) == 2 * power(2, 2099));
    lemma_power_positive(2, 2098);
}

proof fn lemma_huge_ratio(digits: nat, exp: int, n: int)
    requires
        n >= 400,
        n - exp >= 0,
        digits >= power(10, (n - exp) as nat),
    ensures
        numerator(digits, exp) >= power(10, 400) * denominator(exp),
{
    if exp >= 0 {
        lemma_power_add(10, (n - exp) as nat, exp as nat);
        lemma_power_grows(10, 400, n as nat);
        let a = power(10, (n - exp) as nat);
        let b = power(10, exp as nat);
        assert(digits * b >= a * b) by (nonlinear_arith)
            requires
                digits >= a,
                b >= 0,
        ;
        assert((n - exp) as nat + exp as nat == n as nat);
        let ten = power(10, 400);
        assert(ten * 1 == ten) by (nonlinear_arith);
    } else {
        assert(400 + (-exp) as nat == (400 - exp) as nat);
        lemma_power_add(10, 400, (-exp) as nat);
        lemma_power_grows(10, (400 - exp) as nat, (n - exp) as nat);
    }
}

// A number of at least 10^400 rounds to infinity.
proof fn lemma_huge(digits: nat, exp: int, n: int)
    requires
        n >= 400,
        n - exp >= 0,
        digits >= power(10, (n - exp) as nat),
    ensures
        nearest(numerator(digits, exp), denominator(exp), INFINITE as int),
{
    let num = numerator(digits, exp);
    let den = denominator(exp);
    let ten = power(10, 400);
    let two = power(2, 1026);
    let q = power(2, 1074);
    let mid = scaled(INFINITE - 1) + scaled(INFINITE as int);
    lemma_denominator(exp);
    lemma_huge_ratio(digits, exp, n);
    lemma_top_midpoint();
    assert(ten >= two) by {
        lemma_power_eight(400);
        lemma_power_grows(2, 1026, 1200);
    }
    lemma_power_positive(2, 1074);
    assert(num >= two * den) by (nonlinear_arith)
        requires
            num >= ten * den,
            ten >= two,
            den > 0,
    ;
    assert(num * q >= (two * den) * q) by (nonlinear_arith)
        requires
            num >= two * den,
            q > 0,
    ;
    assert((two * q) * den == (two * den) * q) by (nonlinear_arith);
    assert(mid * den < (two * q) * den) by (nonlinear_arith)
        requires
            mid < two * q,
            den > 0,
    ;
    assert(2 * num * q == 2 * (num * q)) by (nonlinear_arith);
}

// A number of less than 10^-400 rounds to zero.
proof fn lemma_tiny(digits: nat, exp: int, n: int)
    requires
        n >= 0,
        exp <= -400 - n,
        digits < power(10, n as nat),
    ensures
        nearest(numerator(digits, exp), denominator(exp), 0),
{
    let den = denominator(exp);
    let a = power(10, n as nat);
    let ten = power(10, 400);
    lemma_power_add(10, n as nat, 400);
    lemma_power_grows(10, (n + 400) as nat, (-exp) as nat);
    lemma_power_eight(400);
    lemma_power_grows(2, 1075, 1200);
    let q = power(2, 1074);
    assert(power(2, 1075) == 2 * q);
    lemma_power_positive(2, 1074);
    assert(2 * digits * q < den) by (nonlinear_arith)
        requires
            digits < a,
            2 * q <= ten,
            a * ten <= den,
            q > 0,
    ;
    assert(scaled(0) == 0 && scaled(1) == 1);
    assert((0 + 1) * den == den) by (nonlinear_arith);
    assert(!above(digits, den, 0));
}

proof fn lemma_zero(exp: int)
    ensures
        nearest(numerator(0, exp), denominator(exp), 0),
{
    lemma_denominator(exp);
    if exp >= 0 {
        assert(0 * power(10, exp as nat) == 0);
    }
    assert(scaled(0) == 0 && scaled(1) == 1);
    let q = power(2, 1074);
    let den = denominator(exp);
    assert(2 * 0 * q == 0 && (0 + 1) * den == den) by (nonlinear_arith);
}

proof fn lemma_digits_bound(s: Seq<char>)
    requires
        all_digits(s),
    ensures
        digits_value(s) < power(10, s.len()),
    decreases s.len(),
{
    if s.len() > 0 {
        assert(digit_ok(s.last()));
        lemma_digits_bound(s.drop_last());
        let x = digits_value(s.drop_last());
        let p = power(10, (s.len() - 1) as nat);
        assert(x * 10 + 9 < 10 * p) by (nonlinear_arith)
            requires
                x + 1 <= p,
        ;
    }
}

proof fn lemma_digits_least(s: Seq<char>, z: int)
    requires
        all_digits(s),
        0 <= z < s.len(),
        s[z] != '0',
        forall|i: int| 0 <= i < z ==> s[i] == '0',
    ensures
        digits_value(s) >= power(10, (s.len() - z - 1) as nat),
        digits_value(s) < power(10, (s.len() - z) as nat),
    decreases s.len(),
{
    let t = s.drop_last();
    assert(digit_ok(s.last()));
    if z == s.len() - 1 {
        assert(power(10, 0) == 1);
        assert(power(10, 1) == 10 * power(10, 0));
        lemma_all_zero(t);
        assert(digit_ok(s[z]));
    } else {
        assert(t[z] != '0');
        lemma_digits_least(t, z);
        let x = digits_value(t);
        let p = power(10, (t.len() - z - 1) as nat);
        let q = power(10, (t.len() - z) as nat);
        assert(x * 10 >= 10 * p && x * 10 + 9 < 10 * q) by (nonlinear_arith)
            requires
                x >= p,
                x + 1 <= q,
        ;
    }
}

proof fn lemma_all_zero(s: Seq<char>)
    requires
        forall|i: int| 0 <= i < s.len() ==> s[i] == '0',
    ensures
        digits_value(s) == 0,
    decreases s.len(),
{
    if s.len() > 0 {
        lemma_all_zero(s.drop_last());
        assert(s.last() == '0');
    }
}

fn digits_big(s: &Vec<char>) -> (r: Big)
    requires
        all_digits(s@),
    ensures
        r@ == digits_value(s@),
{
    let mut out = big(0);
    let mut i: usize = 0;
    while i < s.len()
        invariant
            i <= s@.len(),
            all_digits(s@),
            out@ == digits_value(s@.take(i as int)),
        decreases s@.len() - i,
    {
        assert(digit_ok(s@[i as int]));
        let d: u64 = (s[i] as u32 - 0x30) as u64;
        out = scale(&out, 10, d);
        assert(s@.take(i + 1).drop_last() == s@.take(i as int));
        i += 1;
    }
    assert(s@.take(i as int) == s@);
    out
}

/// The place of the number with the given digits times ten to the given power.
fn place(digits: &Vec<char>, exp: i128) -> (r: i64)
    requires
        all_digits(digits@),
        -0x1_0000_0000_0000_0000_0000_0000 < exp < 0x1_0000_0000_0000_0000_0000_0000,
    ensures
        0 <= r <= INFINITE,
        r == place_of(digits_value(digits@), exp as int),
{
    let ghost d = digits_value(digits@);
    let mut z: usize = 0;
    while z < digits.len() && digits[z] == '0'
        invariant
            z <= digits@.len(),
            forall|i: int| 0 <= i < z ==> digits@[i] == '0',
        decreases digits@.len() - z,
    {
        z += 1;
    }
    if z == digits.len() {
        proof {
            lemma_all_zero(digits@);
            lemma_zero(exp as int);
            lemma_place(d, exp as int, 0);
        }
        return 0;
    }
    let n: i128 = (digits.len() - z) as i128;
    proof {
        lemma_digits_least(digits@, z as int);
    }
    if n - 1 + exp >= 400 {
        proof {
            lemma_huge(d, exp as int, n - 1 + exp);
            lemma_place(d, exp as int, INFINITE as int);
        }
        return INFINITE;
    }
    if n + exp <= -400 {
        proof {
            lemma_tiny(d, exp as int, n as int);
            lemma_place(d, exp as int, 0);
        }
        return 0;
    }
    search(digits_big(digits), exp)
}

// ---------------------------------------------------------------------------
// Numerals
// ---------------------------------------------------------------------------

/// The first position from `i` on at which one of two characters stands, or the
/// length of the text.
pub open spec fn first_of(s: Seq<char>, a: char, b: char, i: int) -> int
    decreases s.len() - i,
{
    if i >= s.len() {
        s.len() as int
    } else if s[i] == a || s[i] == b {
        i
    } else {
        first_of(s, a, b, i + 1)
    }
}

/// Whether a text begins with a sign.
pub open spec fn signed(s: Seq<char>) -> bool {
    s.len() > 0 && (s[0] == '+' || s[0] == '-')
}

/// A text without its sign.
pub open spec fn unsigned(s: Seq<char>) -> Seq<char> {
    if signed(s) {
        s.drop_first()
    } else {
        s
    }
}

/// The value of an exponent: an optional sign and at least one digit.
pub open spec fn exponent_of(s: Seq<char>) -> Option<int> {
    let t = unsigned(s);
    if t.len() == 0 || !all_digits(t) {
        None
    } else if s[0] == '-' {
        Some(-(digits_value(t) as int))
    } else {
        Some(digits_value(t) as int)
    }
}

/// The digits of a numeral before its exponent, without the point.
pub open spec fn mantissa_digits(m: Seq<char>) -> Seq<char> {
    let p = first_of(m, '.', '.', 0);
    if p < m.len() {
        m.take(p) + m.skip(p + 1)
    } else {
        m
    }
}

/// The number of digits after the point.
pub open spec fn places_after(m: Seq<char>) -> int {
    let p = first_of(m, '.', '.', 0);
    if p < m.len() {
        m.len() - p - 1
    } else {
        0
    }
}

/// Reads an unsigned decimal numeral: digits with at most one point among or
/// around them, and an optional exponent. Gives the digits and the power of ten.
pub open spec fn decimal_of_text(s: Seq<char>) -> Option<(nat, int)> {
    let x = first_of(s, 'e', 'E', 0);
    let m = s.take(x);
    let digits = mantissa_digits(m);
    if digits.len() == 0 || !all_digits(digits) {
        None
    } else if x < s.len() {
        match exponent_of(s.skip(x + 1)) {
            Some(e) => Some((digits_value(digits), e - places_after(m))),
            None => None,
        }
    } else {
        Some((digits_value(digits), -places_after(m)))
    }
}

/// The number at a place, with a sign.
pub open spec fn with_sign(s: Seq<char>, place: int) -> Number {
    Number {
        place: Some(
            if signed(s) && s[0] == '-' {
                -place
            } else {
                place
            } as i64,
        ),
    }
}

/// The number that a text denotes: a decimal numeral in double precision, an
/// infinity or not-a-number, the letters in any case.
pub open spec fn number_of(s: Seq<char>) -> Option<Number> {
    let t = unsigned(s);
    let low = ascii_lower_text(t);
    if low == "inf"@ || low == "infinity"@ {
        Some(with_sign(s, INFINITE as int))
    } else if low == "nan"@ {
        Some(Number { place: None })
    } else {
        match decimal_of_text(t) {
            Some((d, e)) => Some(with_sign(s, place_of(d, e))),
            None => None,
        }
    }
}

fn find_first(s: &Vec<char>, a: char, b: char) -> (r: usize)
    ensures
        r == first_of(s@, a, b, 0),
        r <= s@.len(),
{
    let mut i: usize = 0;
    while i < s.len()
        invariant
            i <= s@.len(),
            first_of(s@, a, b, 0) == first_of(s@, a, b, i as int),
        decreases s@.len() - i,
    {
        if s[i] == a || s[i] == b {
            return i;
        }
        i += 1;
    }
    i
}

fn part(s: &Vec<char>, lo: usize, hi: usize) -> (r: Vec<char>)
    requires
        lo <= hi <= s@.len(),
    ensures
        r@ == s@.subrange(lo as int, hi as int),
{
    let mut out: Vec<char> = Vec::new();
    let mut i: usize = lo;
    while i < hi
        invariant
            lo <= i <= hi <= s@.len(),
            out@ == s@.subrange(lo as int, i as int),
        decreases hi - i,
    {
        out.push(s[i]);
        i += 1;
        assert(out@ == s@.subrange(lo as int, i as int));
    }
    out
}

fn only_digits(s: &Vec<char>) -> (r: bool)
    ensures
        r == all_digits(s@),
{
    let mut i: usize = 0;
    while i < s.len()
        invariant
            i <= s@.len(),
            forall|k: int| 0 <= k < i ==> digit_ok(#[trigger] s@[k]),
        decreases s@.len() - i,
    {
        if !is_digit(s[i]) {
            return false;
        }
        i += 1;
    }
    true
}

/// The largest exponent that is told apart from larger ones.
const LIMIT: i128 = 0x4_0000_0000_0000_0000_0000;

proof fn lemma_digits_grow(s: Seq<char>, i: int)
    requires
        0 <= i <= s.len(),
    ensures
        digits_value(s.take(i)) <= digits_value(s),
    decreases s.len() - i,
{
    if i < s.len() {
        lemma_digits_grow(s, i + 1);
        assert(s.take(i + 1).drop_last() == s.take(i));
    } else {
        assert(s.take(i) == s);
    }
}

// The value of some digits, or the limit where they denote more.
fn digits_limited(s: &Vec<char>) -> (r: i128)
    requires
        all_digits(s@),
    ensures
        0 <= r <= LIMIT,
        r < LIMIT ==> r == digits_value(s@),
        r == LIMIT ==> digits_value(s@) >= LIMIT,
{
    let mut acc: i128 = 0;
    let mut i: usize = 0;
    while i < s.len()
        invariant
            i <= s@.len(),
            all_digits(s@),
            0 <= acc < LIMIT,
            acc == digits_value(s@.take(i as int)),
        decreases s@.len() - i,
    {
        assert(digit_ok(s@[i as int]));
        let d: i128 = (s[i] as u32 - 0x30) as i128;
        acc = acc * 10 + d;
        assert(s@.take(i + 1).drop_last() == s@.take(i as int));
        i += 1;
        if acc >= LIMIT {
            proof {
                lemma_digits_grow(s@, i as int);
            }
            return LIMIT;
        }
    }
    assert(s@.take(i as int) == s@);
    acc
}

// The place of digits times ten to a power that lies beyond the limit.
fn extreme_place(digits: &Vec<char>, down: bool, exp: Ghost<int>) -> (r: i64)
    requires
        all_digits(digits@),
        digits@.len() > 0,
        down ==> exp@ <= -LIMIT,
        !down ==> exp@ >= LIMIT - 0x1_0000_0000_0000_0000,
    ensures
        0 <= r <= INFINITE,
        r == place_of(digits_value(digits@), exp@),
{
    let ghost d = digits_value(digits@);
    let mut z: usize = 0;
    while z < digits.len() && digits[z] == '0'
        invariant
            z <= digits@.len(),
            forall|i: int| 0 <= i < z ==> digits@[i] == '0',
        decreases digits@.len() - z,
    {
        z += 1;
    }
    if z == digits.len() {
        proof {
            lemma_all_zero(digits@);
            lemma_zero(exp@);
            lemma_place(d, exp@, 0);
        }
        return 0;
    }
    proof {
        lemma_digits_least(digits@, z as int);
    }
    let ghost n = digits@.len() - z;
    if down {
        proof {
            lemma_tiny(d, exp@, n);
            lemma_place(d, exp@, 0);
        }
        0
    } else {
        proof {
            lemma_huge(d, exp@, n - 1 + exp@);
            lemma_place(d, exp@, INFINITE as int);
        }
        INFINITE
    }
}

fn decimal_place(t: &Vec<char>) -> (r: Option<i64>)
    ensures
        match r {
            Some(p) => 0 <= p <= INFINITE && match decimal_of_text(t@) {
                Some((d, e)) => p == place_of(d, e),
                None => false,
            },
            None => decimal_of_text(t@) is None,
        },
{
    let x: usize = find_first(t, 'e', 'E');
    let m = part(t, 0, x);
    assert(m@ == t@.take(x as int));
    let p: usize = find_first(&m, '.', '.');
    let mut digits = part(&m, 0, p);
    let mut after: usize = 0;
    assert(digits@ == m@.take(p as int));
    if p < m.len() {
        let mut more = part(&m, p + 1, m.len());
        assert(more@ == m@.skip(p + 1));
        digits.append(&mut more);
        after = m.len() - p - 1;
    }
    assert(digits@ == mantissa_digits(m@));
    assert(after == places_after(m@));
    if digits.len() == 0 || !only_digits(&digits) {
        return None;
    }
    if x == t.len() {
        return Some(place(&digits, -(after as i128)));
    }
    let tail = part(t, x + 1, t.len());
    assert(tail@ == t@.skip(x + 1));
    let has_sign = tail.len() > 0 && (tail[0] == '+' || tail[0] == '-');
    let start: usize = if has_sign {
        1
    } else {
        0
    };
    let body = part(&tail, start, tail.len());
    assert(body@ == unsigned(tail@));
    if body.len() == 0 || !only_digits(&body) {
        return None;
    }
    let down = tail[0] == '-';
    let n: i128 = digits_limited(&body);
    if n == LIMIT {
        let ghost e = exponent_of(tail@)->0 - after;
        return Some(extreme_place(&digits, down, Ghost(e)));
    }
    let e: i128 = if down {
        -n - (after as i128)
    } else {
        n - (after as i128)
    };
    Some(place(&digits, e))
}

/// Reads a number.
pub fn parse_number(s: &str) -> (r: Option<Number>)
    ensures
        r == number_of(s@),
{
    let b = to_chars(s);
    let negative = b.len() > 0 && b[0] == '-';
    let start: usize = if b.len() > 0 && (b[0] == '+' || b[0] == '-') {
        1
    } else {
        0
    };
    let t = part(&b, start, b.len());
    assert(t@ == unsigned(s@));
    let word = slice_text(t.as_slice(), 0, t.len());
    assert(word@ == t@);
    let low = lower(word.as_str());
    if same(low.as_str(), "inf") || same(low.as_str(), "infinity") {
        return Some(
            Number {
                place: Some(
                    if negative {
                        -INFINITE
                    } else {
                        INFINITE
                    },
                ),
            },
        );
    }
    if same(low.as_str(), "nan") {
        return Some(Number { place: None });
    }
    match decimal_place(&t) {
        Some(p) => Some(
            Number {
                place: Some(
                    if negative {
                        -p
                    } else {
                        p
                    },
                ),
            },
        ),
        None => None,
    }
}

// ---------------------------------------------------------------------------
// Whole numbers
// ---------------------------------------------------------------------------

/// The number that a whole number is in double precision.
pub open spec fn whole_number(n: nat) -> Number {
    Number { place: Some(place_of(n, 0) as i64) }
}

// A number that is a double has the place of that double.
proof fn lemma_exact(n: nat, k: int)
    requires
        0 <= k < INFINITE,
        scaled(k) == n * power(2, 1074),
    ensures
        place_of(n, 0) == k,
{
    assert(power(10, 0) == 1);
    assert(n * 1 == n) by (nonlinear_arith);
    let q = power(2, 1074);
    assert(2 * n * q == 2 * (n * q)) by (nonlinear_arith);
    lemma_midpoint(k);
    if k > 0 {
        lemma_midpoint(k - 1);
        let a = scaled(k - 1) + scaled(k);
        assert(a * 1 == a) by (nonlinear_arith);
    }
    let b = scaled(k) + scaled(k + 1);
    assert(b * 1 == b) by (nonlinear_arith);
    lemma_place(n, 0, k);
}

/// A whole number in double precision.
pub fn whole(n: u64) -> (r: Number)
    ensures
        r == whole_number(n as nat),
{
    if n == 0 {
        proof {
            lemma_zero(0);
            lemma_place(0, 0, 0);
        }
        return Number { place: Some(0) };
    }
    if n >= 0x20_0000_0000_0000 {
        return Number { place: Some(search(big(n), 0)) };
    }
    let mut s: u64 = n;
    let mut c: i64 = 0;
    assert(power(2, 0) == 1);
    assert(n * 1 == n) by (nonlinear_arith);
    while s < 0x10_0000_0000_0000
        invariant
            0 < n,
            0 <= c <= 52,
            s == n * power(2, c as nat),
            s < 0x20_0000_0000_0000,
        decreases 52 - c,
    {
        proof {
            let p = power(2, c as nat);
            assert(n * (2 * p) == 2 * (n * p)) by (nonlinear_arith);
            lemma_two_to_52();
            assert(p <= n * p) by (nonlinear_arith)
                requires
                    0 < n,
                    p >= 0,
            ;
            if c == 52 {
                assert(false);
            }
        }
        s = 2 * s;
        c += 1;
    }
    let e: i64 = 1075 - c;
    let f: i64 = (s - 0x10_0000_0000_0000) as i64;
    let k: i64 = e * STEP + f;
    proof {
        let st = STEP as int;
        assert((k as int) / st == e && (k as int) % st == f) by (nonlinear_arith)
            requires
                k == e * st + f,
                0 <= f < st,
                st == 0x10_0000_0000_0000,
        ;
        let p = power(2, c as nat);
        let q = power(2, (e - 1) as nat);
        lemma_power_add(2, c as nat, (e - 1) as nat);
        assert(c as nat + (e - 1) as nat == 1074);
        assert((n * p) * q == n * (p * q)) by (nonlinear_arith);
        assert(scaled(k as int) == n * power(2, 1074));
        lemma_exact(n as nat, k as int);
    }
    Number { place: Some(k) }
}

proof fn lemma_decimal(n: nat)
    ensures
        crate::text::decimal_of(n).len() > 0,
        all_digits(crate::text::decimal_of(n)),
        digits_value(crate::text::decimal_of(n)) == n,
    decreases n,
{
    let s = crate::text::decimal_of(n);
    if n >= 10 {
        lemma_decimal(n / 10);
        assert(s.drop_last() == crate::text::decimal_of(n / 10));
        assert forall|i: int| 0 <= i < s.len() implies digit_ok(#[trigger] s[i]) by {
            if i < s.len() - 1 {
                assert(s[i] == crate::text::decimal_of(n / 10)[i]);
                assert(digit_ok(crate::text::decimal_of(n / 10)[i]));
            }
        }
    } else {
        assert(s.drop_last() == Seq::<char>::empty());
        assert(digits_value(Seq::<char>::empty()) == 0);
    }
}

proof fn lemma_no_mark(s: Seq<char>, a: char, b: char, i: int)
    requires
        all_digits(s),
        !digit_ok(a),
        !digit_ok(b),
        0 <= i <= s.len(),
    ensures
        first_of(s, a, b, i) == s.len(),
    decreases s.len() - i,
{
    if i < s.len() {
        assert(digit_ok(s[i]));
        lemma_no_mark(s, a, b, i + 1);
    }
}

/// The decimal numeral of a whole number denotes that number.
pub proof fn decimal_denotes_itself(n: nat)
    ensures
        number_of(crate::text::decimal_of(n)) == Some(whole_number(n)),
{
    let s = crate::text::decimal_of(n);
    lemma_decimal(n);
    assert(digit_ok(s[0]));
    assert(unsigned(s) == s);
    let low = ascii_lower_text(s);
    assert(low[0] == s[0]);
    reveal_strlit("inf");
    reveal_strlit("infinity");
    reveal_strlit("nan");
    lemma_no_mark(s, 'e', 'E', 0);
    assert(s.take(s.len() as int) == s);
    lemma_no_mark(s, '.', '.', 0);
}

/// Rounding keeps the order: a number that is not greater than another does not round
/// to a greater double.
pub proof fn rounding_is_monotone(n1: nat, d1: nat, k1: int, n2: nat, d2: nat, k2: int)
    requires
        d1 > 0,
        d2 > 0,
        n1 * d2 <= n2 * d1,
        nearest(n1, d1, k1),
        nearest(n2, d2, k2),
    ensures
        k1 <= k2,
{
    if k1 > k2 {
        lemma_above_down(n1, d1, k2, k1 - 1);
        let q = power(2, 1074);
        lemma_power_positive(2, 1074);
        let m = scaled(k2) + scaled(k2 + 1);
        let v1 = 2 * n1 * q;
        let v2 = 2 * n2 * q;
        assert(v1 >= m * d1 && v2 <= m * d2);
        assert(v1 * d2 <= v2 * d1) by (nonlinear_arith)
            requires
                v1 == 2 * n1 * q,
                v2 == 2 * n2 * q,
                n1 * d2 <= n2 * d1,
                q > 0,
        ;
        if v1 > m * d1 {
            assert(v1 * d2 > v2 * d1) by (nonlinear_arith)
                requires
                    v1 > m * d1,
                    v2 <= m * d2,
                    d1 > 0,
                    d2 > 0,
            ;
        } else {
            assert(v2 < m * d2);
            assert(v1 * d2 > v2 * d1) by (nonlinear_arith)
                requires
                    v1 == m * d1,
                    v2 < m * d2,
                    d1 > 0,
                    d2 > 0,
            ;
        }
    }
}

// Below 2^53 a whole number is a double.
proof fn lemma_whole_exact(n: nat)
    requires
        n < 0x20_0000_0000_0000,
    ensures
        exists|k: int| 0 <= k < INFINITE && #[trigger] scaled(k) == n * power(2, 1074),
{
    if n == 0 {
        assert(scaled(0) == 0 * power(2, 1074)) by (nonlinear_arith)
            requires
                scaled(0) == 0,
        ;
    } else {
        assert(power(2, 0) == 1);
        assert(n * 1 == n) by (nonlinear_arith);
        lemma_whole_normal(n, n, 0);
    }
}

proof fn lemma_whole_normal(n: nat, s: nat, c: int)
    requires
        0 < n,
        0 <= c <= 52,
        s == n * power(2, c as nat),
        s < 0x20_0000_0000_0000,
    ensures
        exists|k: int| 0 <= k < INFINITE && #[trigger] scaled(k) == n * power(2, 1074),
    decreases 52 - c,
{
    let p = power(2, c as nat);
    if s < 0x10_0000_0000_0000 {
        lemma_two_to_52();
        assert(p <= n * p) by (nonlinear_arith)
            requires
                0 < n,
                p >= 0,
        ;
        assert(c < 52);
        assert(n * (2 * p) == 2 * (n * p)) by (nonlinear_arith);
        lemma_whole_normal(n, 2 * s, c + 1);
    } else {
        let st = STEP as int;
        let e = 1075 - c;
        let f = s - st;
        let k = e * st + f;
        assert(k / st == e && k % st == f) by (nonlinear_arith)
            requires
                k == e * st + f,
                0 <= f < st,
                st == 0x10_0000_0000_0000,
        ;
        let q = power(2, (e - 1) as nat);
        lemma_power_add(2, c as nat, (e - 1) as nat);
        assert(c as nat + (e - 1) as nat == 1074);
        assert((n * p) * q == n * (p * q)) by (nonlinear_arith);
        assert(scaled(k) == n * power(2, 1074));
    }
}

/// Whole numbers below 2^53 are finite doubles.
pub proof fn whole_places_fit(n: nat)
    requires
        n < 0x20_0000_0000_0000,
    ensures
        0 <= place_of(n, 0) < INFINITE,
{
    lemma_whole_exact(n);
    let k = choose|k: int| 0 <= k < INFINITE && #[trigger] scaled(k) == n * power(2, 1074);
    lemma_exact(n, k);
}

/// Whole numbers below 2^53 compare as they are.
pub proof fn whole_numbers_compare_exactly(a: nat, b: nat)
    requires
        a < b < 0x20_0000_0000_0000,
    ensures
        place_of(a, 0) < place_of(b, 0),
{
    lemma_whole_exact(a);
    lemma_whole_exact(b);
    let q = power(2, 1074);
    lemma_power_positive(2, 1074);
    let i = choose|k: int| 0 <= k < INFINITE && #[trigger] scaled(k) == a * q;
    let j = choose|k: int| 0 <= k < INFINITE && #[trigger] scaled(k) == b * q;
    lemma_exact(a, i);
    lemma_exact(b, j);
    assert(a * q < b * q) by (nonlinear_arith)
        requires
            a < b,
            q > 0,
    ;
    if j <= i {
        lemma_scaled_grows(j, i);
    }
}

proof fn lemma_scaled_grows(j: int, i: int)
    requires
        0 <= j <= i,
    ensures
        scaled(j) <= scaled(i),
    decreases i - j,
{
    if j < i {
        lemma_midpoint(i - 1);
        lemma_scaled_grows(j, i - 1);
    }
}

} // verus!
