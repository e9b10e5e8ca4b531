//! The period of the master clock.
use vstd::arithmetic::div_mod::{
    lemma_fundamental_div_mod, lemma_mod_multiples_basic, lemma_small_mod,
};
use vstd::prelude::*;

verus! {

/// The greatest common divisor, by Euclid.
pub open spec fn gcd_of(a: nat, b: nat) -> nat
    decreases b,
{
    if b == 0 {
        a
    } else {
        gcd_of(b, a % b)
    }
}

/// The greatest common divisor of two numbers: it divides both, and every number that divides both
/// divides it.
pub fn gcd(a: usize, b: usize) -> (r: usize)
    ensures
        r == gcd_of(a as nat, b as nat),
        a > 0 || b > 0 ==> r > 0 && a as int % r as int == 0 && b as int % r as int == 0,
        forall|d: int|
            d > 0 && a as int % d == 0 && b as int % d == 0 ==> #[trigger] (r as int % d) == 0,
    decreases b,
{
    proof {
        if a > 0 || b > 0 {
            lemma_gcd_divides(a as nat, b as nat);
        }
        assert forall|d: int| d > 0 && a as int % d == 0 && b as int % d == 0 implies #[trigger] (
        gcd_of(a as nat, b as nat) as int % d) == 0 by {
            lemma_common_divisor(a as nat, b as nat, d);
        }
    }
    if b == 0 {
        a
    } else {
        gcd(b, a % b)
    }
}

/// A multiple of the divisor times any factor has no remainder.
proof fn lemma_product_divides(d: int, k: int)
    requires
        d > 0,
    ensures
        (d * k) % d == 0,
{
    lemma_mod_multiples_basic(k, d);
    assert(d * k == k * d) by (nonlinear_arith);
}

/// No remainder means that the quotient times the divisor is the number.
proof fn lemma_exact_quotient(n: int, d: int)
    requires
        d > 0,
        n % d == 0,
    ensures
        n == d * (n / d),
{
    lemma_fundamental_div_mod(n, d);
}

/// The greatest common divisor is positive and divides both numbers.
pub proof fn lemma_gcd_divides(a: nat, b: nat)
    requires
        a > 0 || b > 0,
    ensures
        gcd_of(a, b) > 0,
        a % gcd_of(a, b) == 0,
        b % gcd_of(a, b) == 0,
    decreases b,
{
    if b == 0 {
        assert(a % a == 0) by (nonlinear_arith)
            requires
                a > 0,
        ;
    } else {
        lemma_gcd_divides(b, a % b);
        let g = gcd_of(a, b) as int;
        let q = (a / b) as int;
        let r = (a % b) as int;
        lemma_fundamental_div_mod(a as int, b as int);
        lemma_exact_quotient(b as int, g);
        lemma_exact_quotient(r, g);
        let k = (b as int / g) * q + r / g;
        assert(a as int == g * k) by (nonlinear_arith)
            requires
                a as int == b as int * q + r,
                b as int == g * (b as int / g),
                r == g * (r / g),
                k == (b as int / g) * q + r / g,
        ;
        lemma_product_divides(g, k);
    }
}

/// The greatest common divisor is a combination of the two numbers.
proof fn lemma_gcd_combines(a: nat, b: nat) -> (xy: (int, int))
    ensures
        a * xy.0 + b * xy.1 == gcd_of(a, b),
    decreases b,
{
    if b == 0 {
        (1, 0)
    } else {
        let (x, y) = lemma_gcd_combines(b, a % b);
        let q = (a / b) as int;
        let r = (a % b) as int;
        lemma_fundamental_div_mod(a as int, b as int);
        assert(a * y + b * (x - q * y) == b * x + r * y) by (nonlinear_arith)
            requires
                a as int == b as int * q + r,
        ;
        (y, x - q * y)
    }
}

/// What divides both numbers divides their greatest common divisor.
proof fn lemma_common_divisor(a: nat, b: nat, d: int)
    requires
        d > 0,
        a as int % d == 0,
        b as int % d == 0,
    ensures
        gcd_of(a, b) as int % d == 0,
{
    let (x, y) = lemma_gcd_combines(a, b);
    lemma_exact_quotient(a as int, d);
    lemma_exact_quotient(b as int, d);
    let m = a as int / d;
    let n = b as int / d;
    assert(a * x + b * y == d * (m * x + n * y)) by (nonlinear_arith)
        requires
            a as int == d * m,
            b as int == d * n,
    ;
    lemma_product_divides(d, m * x + n * y);
}

/// `a / gcd * b` is a multiple of both numbers, and divides every other one.
proof fn lemma_least_common_multiple(a: nat, b: nat)
    requires
        a > 0,
        b > 0,
    ensures
        a / gcd_of(a, b) * b > 0,
        (a / gcd_of(a, b) * b) % a == 0,
        (a / gcd_of(a, b) * b) % b == 0,
        forall|m: nat|
            m % a == 0 && m % b == 0 ==> #[trigger] (m % ((a / gcd_of(a, b) * b) as nat)) == 0,
{
    lemma_gcd_divides(a, b);
    let g = gcd_of(a, b) as int;
    let (x, y) = lemma_gcd_combines(a, b);
    lemma_exact_quotient(a as int, g);
    lemma_exact_quotient(b as int, g);
    let c = a as int / g;
    let d = b as int / g;
    let l = c * b;
    assert(c > 0) by (nonlinear_arith)
        requires
            a as int == g * c,
            a > 0,
            g > 0,
    ;
    assert(l > 0) by (nonlinear_arith)
        requires
            l == c * b,
            c > 0,
            b > 0,
    ;
    assert(l == a * d) by (nonlinear_arith)
        requires
            l == c * b,
            a as int == g * c,
            b as int == g * d,
    ;
    lemma_product_divides(a as int, d);
    lemma_mod_multiples_basic(c, b as int);
    assert forall|m: nat| m % a == 0 && m % b == 0 implies #[trigger] (m % (l as nat)) == 0 by {
        let k = m as int / a as int;
        let j = m as int / b as int;
        lemma_exact_quotient(m as int, a as int);
        lemma_exact_quotient(m as int, b as int);
        let f = j * x + k * y;
        let mi = m as int;
        let ai = a as int;
        let bi = b as int;
        let ab = ai * bi;
        assert(mi * g == (mi * ai) * x + (mi * bi) * y) by (nonlinear_arith)
            requires
                ai * x + bi * y == g,
        ;
        assert(mi * ai == ab * j) by (nonlinear_arith)
            requires
                mi == bi * j,
                ab == ai * bi,
        ;
        assert(mi * bi == ab * k) by (nonlinear_arith)
            requires
                mi == ai * k,
                ab == ai * bi,
        ;
        assert((ab * j) * x + (ab * k) * y == ab * f) by (nonlinear_arith)
            requires
                f == j * x + k * y,
        ;
        assert(ab == g * l) by (nonlinear_arith)
            requires
                ab == ai * bi,
                ai == g * c,
                l == c * bi,
        ;
        assert((g * l) * f == g * (l * f)) by (nonlinear_arith);
        assert(m == l * f) by (nonlinear_arith)
            requires
                m * g == g * (l * f),
                g > 0,
        ;
        lemma_product_divides(l, f);
    }
}

/// Whether `m` holds a whole number of base periods and of loops of every length.
pub open spec fn common_multiple(m: nat, base: nat, lengths: Set<usize>) -> bool {
    &&& m > 0
    &&& m % at_least_one(base) == 0
    &&& forall|l: usize| #[trigger] lengths.contains(l) && l > 0 ==> m % (l as nat) == 0
}

/// `n`, or one in place of zero.
pub open spec fn at_least_one(n: nat) -> nat {
    if n == 0 {
        1
    } else {
        n
    }
}

/// Whether `p` is the shortest span that holds whole loops of every length.
pub open spec fn is_period(p: nat, base: nat, lengths: Set<usize>) -> bool {
    &&& common_multiple(p, base, lengths)
    &&& forall|m: nat| #[trigger] common_multiple(m, base, lengths) ==> p <= m
}

/// The shortest span that holds whole loops of every length.
pub open spec fn period(base: nat, lengths: Set<usize>) -> nat {
    choose|p: nat| is_period(p, base, lengths)
}

/// Whether the period of the clock can be counted.
pub open spec fn period_fits(base: nat, lengths: Set<usize>) -> bool {
    exists|m: nat| m <= usize::MAX && #[trigger] common_multiple(m, base, lengths)
}

/// There is only one period.
pub proof fn lemma_period_is(p: nat, base: nat, lengths: Set<usize>)
    requires
        is_period(p, base, lengths),
    ensures
        period(base, lengths) == p,
{
    let q = period(base, lengths);
    assert(is_period(q, base, lengths));
    assert(common_multiple(p, base, lengths));
    assert(common_multiple(q, base, lengths));
}

/// Where a span holds whole loops of every length, a shortest one does.
pub proof fn lemma_period_exists(base: nat, lengths: Set<usize>)
    requires
        period_fits(base, lengths),
    ensures
        is_period(period(base, lengths), base, lengths),
        period(base, lengths) <= usize::MAX,
{
    let m = choose|m: nat| m <= usize::MAX && #[trigger] common_multiple(m, base, lengths);
    lemma_least(m, base, lengths);
}

proof fn lemma_least(m: nat, base: nat, lengths: Set<usize>)
    requires
        common_multiple(m, base, lengths),
    ensures
        is_period(period(base, lengths), base, lengths),
        period(base, lengths) <= m,
    decreases m,
{
    if exists|k: nat| k < m && #[trigger] common_multiple(k, base, lengths) {
        let k = choose|k: nat| k < m && #[trigger] common_multiple(k, base, lengths);
        lemma_least(k, base, lengths);
    } else {
        assert(is_period(m, base, lengths));
        lemma_period_is(m, base, lengths);
    }
}

/// A positive multiple is at least the number.
proof fn lemma_multiple_is_larger(m: nat, d: nat)
    requires
        m > 0,
        d > 0,
        m % d == 0,
    ensures
        d <= m,
{
    if m < d {
        lemma_small_mod(m, d);
    }
}

/// The loop period of the master clock in ticks, where it can be counted.
pub fn try_max_tick(base: usize, track_lengths: &[usize]) -> (r: Option<usize>)
    ensures
        match r {
            Some(p) => is_period(p as nat, base as nat, track_lengths@.to_set()) && p == period(
                base as nat,
                track_lengths@.to_set(),
            ),
            None => !period_fits(base as nat, track_lengths@.to_set()),
        },
{
    let ghost all = track_lengths@.to_set();
    let mut acc: usize = if base == 0 {
        1
    } else {
        base
    };
    let mut i: usize = 0;
    proof {
        assert((acc as nat) % (acc as nat) == 0) by (nonlinear_arith)
            requires
                acc > 0,
        ;
    }
    while i < track_lengths.len()
        invariant
            i <= track_lengths@.len(),
            all == track_lengths@.to_set(),
            acc > 0,
            (acc as nat) % at_least_one(base as nat) == 0,
            forall|j: int|
                0 <= j < i && track_lengths@[j] > 0 ==> (acc as nat) % (
                #[trigger] track_lengths@[j] as nat) == 0,
            forall|m: nat| #[trigger]
                common_multiple(m, base as nat, all) ==> m % (acc as nat) == 0,
        decreases track_lengths@.len() - i,
    {
        let len: usize = track_lengths[i];
        assert(all.contains(len));
        if len > 0 {
            let g: usize = gcd(acc, len);
            let ghost l = (acc as nat) / gcd_of(acc as nat, len as nat) * (len as nat);
            proof {
                lemma_gcd_divides(acc as nat, len as nat);
                lemma_least_common_multiple(acc as nat, len as nat);
                assert forall|d: nat| d > 0 && (acc as nat) % d == 0 implies #[trigger] (l % d)
                    == 0 by {
                    lemma_divides_through(l, acc as nat, d);
                }
                assert(l % at_least_one(base as nat) == 0);
                assert forall|m: nat| #[trigger] common_multiple(m, base as nat, all) implies m % l
                    == 0 && l <= m by {
                    lemma_multiple_is_larger(m, l);
                }
            }
            match (acc / g).checked_mul(len) {
                Some(next) => {
                    acc = next;
                },
                None => {
                    return None;
                },
            }
        }
        i = i + 1;
    }
    proof {
        assert forall|l: usize| #[trigger] all.contains(l) && l > 0 implies (acc as nat) % (
        l as nat) == 0 by {
            let j = choose|j: int| 0 <= j < track_lengths@.len() && track_lengths@[j] == l;
            assert((acc as nat) % (track_lengths@[j] as nat) == 0);
        }
        assert forall|m: nat| #[trigger] common_multiple(m, base as nat, all) implies acc <= m by {
            lemma_multiple_is_larger(m, acc as nat);
        }
        lemma_period_is(acc as nat, base as nat, all);
    }
    Some(acc)
}

/// The loop period of the master clock in ticks: `base`, extended to a whole multiple of every
/// loop length, so that loops longer than the base complete their cycle before the clock wraps.
pub fn compute_max_tick(base: usize, track_lengths: &[usize]) -> (r: usize)
    requires
        period_fits(base as nat, track_lengths@.to_set()),
    ensures
        is_period(r as nat, base as nat, track_lengths@.to_set()),
        r == period(base as nat, track_lengths@.to_set()),
{
    try_max_tick(base, track_lengths).unwrap()
}

/// A divisor of a divisor is a divisor.
proof fn lemma_divides_through(n: nat, a: nat, d: nat)
    requires
        a > 0,
        d > 0,
        n % a == 0,
        a % d == 0,
    ensures
        n % d == 0,
{
    lemma_exact_quotient(n as int, a as int);
    lemma_exact_quotient(a as int, d as int);
    let k = (a as int / d as int) * (n as int / a as int);
    assert(n as int == d as int * k) by (nonlinear_arith)
        requires
            n as int == a as int * (n as int / a as int),
            a as int == d as int * (a as int / d as int),
            k == (a as int / d as int) * (n as int / a as int),
    ;
    lemma_product_divides(d as int, k);
}

} // verus!
