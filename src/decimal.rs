use vstd::prelude::*;
use vstd::arithmetic::div_mod::{lemma_fundamental_div_mod, lemma_mod_pos_bound};

verus! {

/// `10` to the power `n`.
pub open spec fn pow10(n: nat) -> int
    decreases n,
{
    if n == 0 { 1 } else { 10 * pow10((n - 1) as nat) }
}

/// The number of fractional digits in which decimals are compared.
pub const KEY_DIGITS: u8 = 38;

/// The value of `mantissa × 10^-scale`, multiplied by `10^38`: an integer
/// that orders decimals by value and is equal exactly for equal values.
pub open spec fn decimal_key(mantissa: i128, scale: u8) -> int {
    mantissa * pow10((38 - scale) as nat)
}

/// A decimal number `mantissa × 10^-scale`, with at most 28 fractional digits.
#[derive(Debug, Clone, Copy, PartialEq, Eq, Hash)]
pub struct Decimal {
    mantissa: i128,
    scale: u8,
}

impl Decimal {
    #[verifier::type_invariant]
    spec fn inv(&self) -> bool {
        self.scale <= 28
    }

    pub closed spec fn spec_mantissa(&self) -> i128 {
        self.mantissa
    }

    pub closed spec fn spec_scale(&self) -> u8 {
        self.scale
    }

    /// The decimal's value as a key (see `decimal_key`).
    pub open spec fn key(&self) -> int {
        decimal_key(self.spec_mantissa(), self.spec_scale())
    }

    /// `mantissa × 10^-scale`; no decimal has more than 28 fractional digits.
    pub fn new(mantissa: i128, scale: u8) -> (r: Option<Decimal>)
        ensures
            (r is Some) == (scale <= 28),
            r matches Some(d) ==> d.spec_mantissa() == mantissa && d.spec_scale() == scale,
    {
        if scale <= 28 { Some(Decimal { mantissa, scale }) } else { None }
    }

    pub fn mantissa(&self) -> (r: i128)
        ensures
            r == self.spec_mantissa(),
    {
        self.mantissa
    }

    pub fn scale(&self) -> (r: u8)
        ensures
            r == self.spec_scale(),
            r <= 28,
    {
        proof {
            use_type_invariant(self);
        }
        self.scale
    }
}

proof fn lemma_pow10_pos(n: nat)
    ensures
        pow10(n) >= 1,
    decreases n,
{
    if n > 0 {
        lemma_pow10_pos((n - 1) as nat);
    }
}

proof fn lemma_pow10_add(a: nat, b: nat)
    ensures
        pow10(a + b) == pow10(a) * pow10(b),
    decreases a,
{
    if a > 0 {
        lemma_pow10_add((a - 1) as nat, b);
        assert(pow10(a + b) == 10 * pow10((a - 1 + b) as nat));
        assert(10 * (pow10((a - 1) as nat) * pow10(b)) == (10 * pow10((a - 1) as nat)) * pow10(b)) by (nonlinear_arith);
    }
}

proof fn lemma_pow10_mono(a: nat, b: nat)
    requires
        a <= b,
    ensures
        pow10(a) <= pow10(b),
    decreases b,
{
    if a < b {
        lemma_pow10_mono(a, (b - 1) as nat);
        lemma_pow10_pos((b - 1) as nat);
    }
}

proof fn lemma_pow10_38()
    ensures
        pow10(38) == 100_000_000_000_000_000_000_000_000_000_000_000_000int,
{
    reveal_with_fuel(pow10, 39);
}

fn pow10_exec(n: u8) -> (r: u128)
    requires
        n <= 38,
    ensures
        r == pow10(n as nat),
{
    let mut r: u128 = 1;
    let mut k: u8 = 0;
    while k < n
        invariant
            k <= n <= 38,
            r == pow10(k as nat),
        decreases n - k,
    {
        proof {
            lemma_pow10_mono((k + 1) as nat, 38);
            lemma_pow10_38();
        }
        r = r * 10;
        k = k + 1;
    }
    r
}

fn magnitude(m: i128) -> (r: u128)
    ensures
        r == if m < 0 { -m } else { m as int },
{
    if m >= 0 { m as u128 } else { ((-(m + 1)) as u128) + 1 }
}

/// The sign of a decimal's key, and its magnitude as `q × 10^38 + f` with
/// `f < 10^38`.
fn split(d: &Decimal) -> (r: (bool, u128, u128))
    ensures
        r.0 == (d.spec_mantissa() < 0),
        r.2 < pow10(38),
        r.1 * pow10(38) + r.2 == if d.key() < 0 { -d.key() } else { d.key() },
        r.0 ==> d.key() < 0,
        !r.0 ==> d.key() >= 0,
{
    let m = d.mantissa();
    let s = d.scale();
    let mag = magnitude(m);
    let p = pow10_exec(s);
    let up = pow10_exec(KEY_DIGITS - s);
    proof {
        lemma_pow10_pos(s as nat);
    }
    let q = mag / p;
    let rem = mag % p;
    proof {
        lemma_pow10_pos(s as nat);
        lemma_pow10_pos((38 - s) as nat);
        lemma_pow10_add(s as nat, (38 - s) as nat);
        lemma_pow10_38();
        lemma_fundamental_div_mod(mag as int, p as int);
        lemma_mod_pos_bound(mag as int, p as int);
        assert(rem * up < p * up) by (nonlinear_arith)
            requires rem < p, up >= 1;
    }
    let f = rem * up;
    proof {
        let key = d.key();
        assert(key == m * up);
        assert(mag * up == (p * q + rem) * up);
        assert((p * q + rem) * up == q * (p * up) + rem * up) by (nonlinear_arith);
        if m < 0 {
            assert(m * up < 0) by (nonlinear_arith) requires m < 0, up >= 1;
            assert(-(m * up) == (-m) * up) by (nonlinear_arith);
        } else {
            assert(m * up >= 0) by (nonlinear_arith) requires m >= 0, up >= 1;
        }
    }
    (m < 0, q, f)
}

proof fn lemma_lex(q1: int, f1: int, q2: int, f2: int, b: int)
    requires
        0 <= f1 < b,
        0 <= f2 < b,
        q1 >= 0,
        q2 >= 0,
    ensures
        (q1 * b + f1 < q2 * b + f2) == (q1 < q2 || (q1 == q2 && f1 < f2)),
        (q1 * b + f1 == q2 * b + f2) == (q1 == q2 && f1 == f2),
{
    if q1 < q2 {
        assert(q1 * b + f1 < q2 * b + f2) by (nonlinear_arith)
            requires q1 < q2, 0 <= f1 < b, 0 <= f2;
    } else if q1 > q2 {
        assert(q1 * b + f1 > q2 * b + f2) by (nonlinear_arith)
            requires q1 > q2, 0 <= f2 < b, 0 <= f1;
    }
}

/// Compares two decimals by value: negative, zero or positive as `a` is
/// below, equal to or above `b`.
pub fn decimal_cmp(a: &Decimal, b: &Decimal) -> (r: i8)
    ensures
        (r < 0) == (a.key() < b.key()),
        (r == 0) == (a.key() == b.key()),
{
    let (na, qa, fa) = split(a);
    let (nb, qb, fb) = split(b);
    proof {
        lemma_pow10_38();
        lemma_lex(qa as int, fa as int, qb as int, fb as int, pow10(38));
    }
    let mag = if qa < qb || (qa == qb && fa < fb) {
        -1i8
    } else if qa == qb && fa == fb {
        0i8
    } else {
        1i8
    };
    if na && !nb {
        -1
    } else if !na && nb {
        1
    } else if na {
        -mag
    } else {
        mag
    }
}

} // verus!
