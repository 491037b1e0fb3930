//! Natural numbers of any size, held in limbs of 64 bits.

use vstd::prelude::*;

use crate::text::Order;

verus! {

/// `b` to the power of `n`.
pub open spec fn power(b: nat, n: nat) -> nat
    decreases n,
{
    if n == 0 {
        1
    } else {
        b * power(b, (n - 1) as nat)
    }
}

pub proof fn lemma_power_add(b: nat, m: nat, n: nat)
    ensures
        power(b, m + n) == power(b, m) * power(b, n),
    decreases m,
{
    if m > 0 {
        lemma_power_add(b, (m - 1) as nat, n);
        let x = power(b, (m - 1) as nat);
        let y = power(b, n);
        assert(b * (x * y) == (b * x) * y) by (nonlinear_arith);
        assert(power(b, m + n) == b * power(b, (m - 1 + n) as nat));
    } else {
        assert(1 * power(b, n) == power(b, n));
    }
}

pub proof fn lemma_power_positive(b: nat, n: nat)
    requires
        b > 0,
    ensures
        power(b, n) > 0,
    decreases n,
{
    if n > 0 {
        lemma_power_positive(b, (n - 1) as nat);
        let x = power(b, (n - 1) as nat);
        assert(b * x > 0) by (nonlinear_arith)
            requires
                b > 0,
                x > 0,
        ;
    }
}

pub proof fn lemma_power_grows(b: nat, m: nat, n: nat)
    requires
        b > 0,
        m <= n,
    ensures
        power(b, m) <= power(b, n),
{
    lemma_power_add(b, m, (n - m) as nat);
    lemma_power_positive(b, (n - m) as nat);
    let x = power(b, m);
    let y = power(b, (n - m) as nat);
    assert(x <= x * y) by (nonlinear_arith)
        requires
            y > 0,
            x >= 0,
    ;
}

/// The base of the limbs.
pub open spec fn base() -> nat {
    0x1_0000_0000_0000_0000
}

/// The limb at a place; the places past the end hold zero.
pub open spec fn limb(s: Seq<u64>, i: int) -> nat {
    if 0 <= i < s.len() {
        s[i] as nat
    } else {
        0
    }
}

/// What the lowest `n` limbs denote.
pub open spec fn low_value(s: Seq<u64>, n: nat) -> nat
    decreases n,
{
    if n == 0 {
        0
    } else {
        low_value(s, (n - 1) as nat) + limb(s, n - 1) * power(base(), (n - 1) as nat)
    }
}

/// A natural number of any size: its limbs, the lowest first.
pub struct Big {
    pub limbs: Vec<u64>,
}

impl View for Big {
    type V = nat;

    open spec fn view(&self) -> nat {
        low_value(self.limbs@, self.limbs@.len())
    }
}

proof fn lemma_low_same(s: Seq<u64>, t: Seq<u64>, n: nat)
    requires
        forall|i: int| 0 <= i < n ==> limb(s, i) == limb(t, i),
    ensures
        low_value(s, n) == low_value(t, n),
    decreases n,
{
    if n > 0 {
        lemma_low_same(s, t, (n - 1) as nat);
    }
}

proof fn lemma_low_past(s: Seq<u64>, n: nat)
    requires
        n >= s.len(),
    ensures
        low_value(s, n) == low_value(s, s.len()),
    decreases n - s.len(),
{
    if n > s.len() {
        lemma_low_past(s, (n - 1) as nat);
        assert(0 * power(base(), (n - 1) as nat) == 0);
    }
}

proof fn lemma_low_bound(s: Seq<u64>, n: nat)
    ensures
        low_value(s, n) < power(base(), n),
    decreases n,
{
    if n > 0 {
        lemma_low_bound(s, (n - 1) as nat);
        let p = power(base(), (n - 1) as nat);
        let d = limb(s, n - 1);
        assert(d * p + p <= base() * p) by (nonlinear_arith)
            requires
                d + 1 <= base(),
                p >= 0,
        ;
    }
}

/// A number of one limb.
pub fn big(n: u64) -> (r: Big)
    ensures
        r@ == n,
{
    let mut limbs: Vec<u64> = Vec::new();
    limbs.push(n);
    let r = Big { limbs };
    assert(power(base(), 0) == 1);
    assert(n * 1 == n) by (nonlinear_arith);
    assert(low_value(r.limbs@, 1) == low_value(r.limbs@, 0) + n * power(base(), 0));
    r
}

/// The product with one limb, plus another limb.
pub fn scale(a: &Big, m: u64, c: u64) -> (r: Big)
    ensures
        r@ == a@ * m + c,
{
    let mut limbs: Vec<u64> = Vec::new();
    let mut carry: u64 = c;
    let mut i: usize = 0;
    assert(low_value(limbs@, 0) == 0);
    assert(power(base(), 0) == 1);
    assert(low_value(a.limbs@, 0) == 0);
    assert(c * 1 == c && 0 * m == 0) by (nonlinear_arith);
    while i < a.limbs.len()
        invariant
            i <= a.limbs@.len(),
            limbs@.len() == i,
            low_value(limbs@, i as nat) + carry * power(base(), i as nat) == low_value(
                a.limbs@,
                i as nat,
            ) * m + c,
        decreases a.limbs@.len() - i,
    {
        let ghost before = limbs@;
        let d: u64 = a.limbs[i];
        assert(d * m + carry <= 0xffff_ffff_ffff_ffff * 0xffff_ffff_ffff_ffff + 0xffff_ffff_ffff_ffff) by (nonlinear_arith)
            requires
                0 <= d <= 0xffff_ffff_ffff_ffff,
                0 <= m <= 0xffff_ffff_ffff_ffff,
                0 <= carry <= 0xffff_ffff_ffff_ffff,
        ;
        assert(0 <= d * m) by (nonlinear_arith)
            requires
                0 <= d,
                0 <= m,
        ;
        let product: u128 = (d as u128) * (m as u128);
        let wide: u128 = product + (carry as u128);
        let lo: u64 = (wide % 0x1_0000_0000_0000_0000) as u64;
        let hi: u64 = (wide / 0x1_0000_0000_0000_0000) as u64;
        limbs.push(lo);
        proof {
            lemma_low_same(before, limbs@, i as nat);
            let p = power(base(), i as nat);
            let x = low_value(before, i as nat);
            let y = low_value(a.limbs@, i as nat);
            assert(power(base(), (i + 1) as nat) == base() * p);
            assert(x + lo * p + hi * (base() * p) == (y + d * p) * m + c) by (nonlinear_arith)
                requires
                    x + carry * p == y * m + c,
                    d * m + carry == hi * base() + lo,
            ;
        }
        carry = hi;
        i += 1;
    }
    let ghost before = limbs@;
    limbs.push(carry);
    proof {
        lemma_low_same(before, limbs@, i as nat);
    }
    Big { limbs }
}

proof fn lemma_two_to_32()
    ensures
        power(2, 32) == 0x1_0000_0000,
{
    reveal_with_fuel(power, 33);
}

proof fn lemma_shift_step(a: nat, m: nat, n: nat)
    ensures
        (a * power(2, m)) * power(2, n) == a * power(2, m + n),
{
    lemma_power_add(2, m, n);
    let x = power(2, m);
    let y = power(2, n);
    assert((a * x) * y == a * (x * y)) by (nonlinear_arith);
}

/// The product with a power of two.
pub fn shift(a: Big, n: u64) -> (r: Big)
    ensures
        r@ == a@ * power(2, n as nat),
{
    let mut out = a;
    let mut k: u64 = 0;
    assert(power(2, 0) == 1);
    assert(a@ * 1 == a@) by (nonlinear_arith);
    while k < n
        invariant
            k <= n,
            out@ == a@ * power(2, k as nat),
        decreases n - k,
    {
        if n - k >= 32 {
            out = scale(&out, 0x1_0000_0000, 0);
            proof {
                lemma_shift_step(a@, k as nat, 32);
                lemma_two_to_32();
            }
            k += 32;
        } else {
            out = scale(&out, 2, 0);
            proof {
                lemma_shift_step(a@, k as nat, 1);
                assert(power(2, 1) == 2 * power(2, 0));
            }
            k += 1;
        }
    }
    out
}

/// The product with a power of ten.
pub fn shift_ten(a: Big, n: u128) -> (r: Big)
    ensures
        r@ == a@ * power(10, n as nat),
{
    let mut out = a;
    let mut k: u128 = 0;
    assert(power(10, 0) == 1);
    assert(a@ * 1 == a@) by (nonlinear_arith);
    while k < n
        invariant
            k <= n,
            out@ == a@ * power(10, k as nat),
        decreases n - k,
    {
        out = scale(&out, 10, 0);
        proof {
            let x = power(10, k as nat);
            assert((a@ * x) * 10 == a@ * (10 * x)) by (nonlinear_arith);
        }
        k += 1;
    }
    out
}

/// Compares two numbers.
pub fn compare_big(a: &Big, b: &Big) -> (r: Order)
    ensures
        match r {
            Order::Less => a@ < b@,
            Order::Equal => a@ == b@,
            Order::Greater => a@ > b@,
        },
{
    let mut n: usize = if a.limbs.len() < b.limbs.len() {
        b.limbs.len()
    } else {
        a.limbs.len()
    };
    proof {
        lemma_low_past(a.limbs@, n as nat);
        lemma_low_past(b.limbs@, n as nat);
    }
    while n > 0
        invariant
            a@ - low_value(a.limbs@, n as nat) == b@ - low_value(b.limbs@, n as nat),
        decreases n,
    {
        n -= 1;
        let x: u64 = if n < a.limbs.len() {
            a.limbs[n]
        } else {
            0
        };
        let y: u64 = if n < b.limbs.len() {
            b.limbs[n]
        } else {
            0
        };
        if x != y {
            proof {
                lemma_low_bound(a.limbs@, n as nat);
                lemma_low_bound(b.limbs@, n as nat);
                let p = power(base(), n as nat);
                if x < y {
                    assert(x * p + p <= y * p) by (nonlinear_arith)
                        requires
                            x + 1 <= y,
                            p >= 0,
                    ;
                } else {
                    assert(y * p + p <= x * p) by (nonlinear_arith)
                        requires
                            y + 1 <= x,
                            p >= 0,
                    ;
                }
            }
            if x < y {
                return Order::Less;
            } else {
                return Order::Greater;
            }
        }
    }
    Order::Equal
}

} // verus!
