//! Numbers as the script engine holds them: IEEE-754 binary64 values, kept
//! here as their three bit fields so that the numeric policies of the bridge
//! can be stated and checked with integer arithmetic alone.
use vstd::arithmetic::div_mod::{
    lemma_div_by_multiple, lemma_fundamental_div_mod_converse, lemma_div_is_ordered, lemma_fundamental_div_mod,
    lemma_mod_multiples_basic,
};
use vstd::arithmetic::power2::{
    lemma2_to64, lemma2_to64_rest, lemma_pow2_adds, lemma_pow2_pos, lemma_pow2_strictly_increases,
    lemma_pow2_unfold, pow2,
};
use vstd::prelude::*;

verus! {

/// The implicit leading bit of a normal binary64 significand, 2^52.
pub const HIDDEN_BIT: u64 = 4503599627370496;

/// The biased exponent of infinities and NaNs.
pub const EXPONENT_SPECIAL: u16 = 2047;

/// The biased exponent of the value 1.0.
pub const EXPONENT_BIAS: u16 = 1023;

/// A binary64 value split into its sign bit, biased exponent and fraction.
#[derive(Clone, Copy, Debug, PartialEq, Eq, Structural)]
pub struct Double {
    pub negative: bool,
    pub exponent: u16,
    pub fraction: u64,
}

impl Double {
    /// The fields fit the binary64 layout: 11 exponent bits, 52 fraction bits.
    pub open spec fn wf(&self) -> bool {
        self.exponent <= EXPONENT_SPECIAL && self.fraction < HIDDEN_BIT
    }

    /// Splits a raw 64-bit pattern into its fields.
    pub fn from_bits(bits: u64) -> (r: Double)
        ensures
            r.wf(),
            r == fields_of(bits),
    {
        Double {
            negative: bits >= 0x8000_0000_0000_0000,
            exponent: ((bits / HIDDEN_BIT) % 2048) as u16,
            fraction: bits % HIDDEN_BIT,
        }
    }

    /// Joins the fields back into the raw 64-bit pattern.
    pub fn to_bits(&self) -> (r: u64)
        requires
            self.wf(),
        ensures
            r == (if self.negative { 0x8000_0000_0000_0000int } else { 0int }) + self.exponent
                * HIDDEN_BIT + self.fraction,
            fields_of(r) == *self,
    {
        let sign: u64 = if self.negative { 0x8000_0000_0000_0000 } else { 0 };
        assert(self.exponent * HIDDEN_BIT <= 2047 * HIDDEN_BIT) by (nonlinear_arith)
            requires self.exponent <= 2047;
        let r = sign + (self.exponent as u64) * HIDDEN_BIT + self.fraction;
        proof {
            let top: int = if self.negative { 2048 } else { 0 };
            let hi = top + self.exponent;
            assert(r == HIDDEN_BIT * hi + self.fraction) by (nonlinear_arith)
                requires
                    r == (if self.negative { 0x8000_0000_0000_0000int } else { 0int }) + self.exponent
                        * HIDDEN_BIT + self.fraction,
                    hi == top + self.exponent,
                    top == (if self.negative { 2048int } else { 0int }),
                    HIDDEN_BIT == 4503599627370496int;
            lemma_fundamental_div_mod_converse(r as int, HIDDEN_BIT as int, hi, self.fraction as int);
            lemma_fundamental_div_mod_converse(hi, 2048, top / 2048, self.exponent as int);
        }
        r
    }
}

/// The fields of a raw 64-bit pattern.
pub open spec fn fields_of(bits: u64) -> Double {
    Double {
        negative: bits >= 0x8000_0000_0000_0000,
        exponent: ((bits / HIDDEN_BIT) % 2048) as u16,
        fraction: bits % HIDDEN_BIT,
    }
}

/// `x` carrying the sign given by `negative`.
pub open spec fn signed(negative: bool, x: int) -> int {
    if negative { -x } else { x }
}

/// The significand of a normal number, hidden bit included.
pub open spec fn significand(d: Double) -> int {
    HIDDEN_BIT + d.fraction
}

/// The value of `d` when it is a whole number, that is, when it equals its own
/// floor: a normal number is `significand * 2^(exponent - 1075)`, which is whole
/// exactly when the scaling leaves no fractional bits. Normal numbers with an
/// exponent below the bias lie strictly between -1 and 1 and are never whole;
/// the only whole subnormal is zero (of either sign). Infinities and NaNs give
/// `None`.
pub open spec fn whole_value(d: Double) -> Option<int> {
    let e = d.exponent as int;
    let m = significand(d);
    if e == EXPONENT_SPECIAL {
        None
    } else if e == 0 {
        if d.fraction == 0 { Some(0) } else { None }
    } else if e >= 1075 {
        Some(signed(d.negative, m * pow2((e - 1075) as nat)))
    } else if e >= EXPONENT_BIAS && m % (pow2((1075 - e) as nat) as int) == 0 {
        Some(signed(d.negative, m / (pow2((1075 - e) as nat) as int)))
    } else {
        None
    }
}

/// The value of `d` as a host integer: a whole number within the 64-bit range.
pub open spec fn integer_value(d: Double) -> Option<int> {
    match whole_value(d) {
        Some(v) => if i64::MIN <= v <= i64::MAX { Some(v) } else { None },
        None => None,
    }
}

/// The position of the highest set bit of `n` (0 for 0 and 1).
pub open spec fn top_bit(n: nat) -> nat
    decreases n,
{
    if n < 2 { 0 } else { 1 + top_bit(n / 2) }
}

/// The magnitude `n` rounded to 53 significant bits, ties to an even
/// significand: the magnitude of the nearest binary64 value.
pub open spec fn rounded_magnitude(n: nat) -> int {
    if top_bit(n) <= 52 {
        n as int
    } else {
        let s = (top_bit(n) - 52) as nat;
        let q = n as int / (pow2(s) as int);
        let r = n as int % (pow2(s) as int);
        let h = pow2((s - 1) as nat) as int;
        let up = r > h || (r == h && q % 2 == 1);
        (if up { q + 1 } else { q }) * pow2(s)
    }
}

/// The integer `i` rounded to the nearest binary64 value.
pub open spec fn rounded_integer(i: int) -> int {
    if i < 0 { -rounded_magnitude((-i) as nat) } else { rounded_magnitude(i as nat) }
}

/// `i` is one of the integers that binary64 holds exactly.
pub open spec fn exact_in_double(i: int) -> bool {
    rounded_integer(i) == i
}

proof fn lemma_top_bit_bounds(n: nat)
    requires
        n >= 1,
    ensures
        pow2(top_bit(n)) <= n < pow2(top_bit(n) + 1),
    decreases n,
{
    lemma2_to64();
    if n >= 2 {
        lemma_top_bit_bounds(n / 2);
        lemma_pow2_unfold(top_bit(n));
        lemma_pow2_unfold(top_bit(n) + 1);
    }
}

proof fn lemma_top_bit_below_64(n: nat)
    requires
        1 <= n < pow2(64),
    ensures
        top_bit(n) < 64,
{
    lemma_top_bit_bounds(n);
    if top_bit(n) >= 64 {
        if top_bit(n) > 64 {
            lemma_pow2_strictly_increases(64, top_bit(n));
        }
    }
}

/// Every integer of at most 53 significant bits is held exactly by binary64.
pub proof fn lemma_small_integers_exact(i: int)
    requires
        -pow2(53) <= i <= pow2(53),
    ensures
        exact_in_double(i),
{
    let n: nat = if i < 0 { (-i) as nat } else { i as nat };
    lemma2_to64();
    lemma2_to64_rest();
    if n >= 1 {
        lemma_top_bit_bounds(n);
        let tb = top_bit(n);
        if tb > 53 {
            lemma_pow2_strictly_increases(53, tb);
        }
        if n < pow2(53) {
            if tb == 53 {
                assert(false);
            }
        } else {
            if tb < 53 {
                lemma_pow2_strictly_increases(tb + 1, 53);
            }
            assert(tb == 53);
            assert(n as int / 2 == pow2(52));
            assert(n as int % 2 == 0);
            assert(((tb - 52) as nat) == 1);
            assert(n as int / (pow2(1) as int) == pow2(52));
            assert(n as int % (pow2(1) as int) == 0);
            assert(pow2(((1 - 1) as nat)) == 1);
        }
        assert(rounded_magnitude(n) == n);
    }
    assert(rounded_magnitude(n) == n);
}

/// 2^k, for k below 64.
fn power_of_two(k: u64) -> (r: u64)
    requires
        k < 64,
    ensures
        r == pow2(k as nat),
{
    let mut r: u64 = 1;
    let mut j: u64 = 0;
    proof {
        lemma2_to64();
    }
    while j < k
        invariant
            j <= k < 64,
            r == pow2(j as nat),
        decreases k - j,
    {
        proof {
            lemma2_to64_rest();
            lemma_pow2_unfold((j + 1) as nat);
            if j < 62 {
                lemma_pow2_strictly_increases(j as nat, 63);
            }
        }
        r = r * 2;
        j = j + 1;
    }
    r
}

impl Double {
    /// The host integer that `self` decodes to, when it has one: a whole
    /// number (equal to its own floor) within the 64-bit integer range.
    pub fn as_integer(&self) -> (r: Option<i64>)
        requires
            self.wf(),
        ensures
            match r {
                Some(v) => integer_value(*self) == Some(v as int),
                None => integer_value(*self) is None,
            },
    {
        proof {
            lemma2_to64();
            lemma2_to64_rest();
        }
        let e = self.exponent;
        let m: u64 = self.fraction + HIDDEN_BIT;
        if e == EXPONENT_SPECIAL {
            None
        } else if e == 0 {
            if self.fraction == 0 { Some(0) } else { None }
        } else if e >= 1075 {
            let s: u64 = (e - 1075) as u64;
            if s < 11 {
                let p = power_of_two(s);
                proof {
                    if s < 10 {
                        lemma_pow2_strictly_increases(s as nat, 10);
                    }
                    assert(m * p < pow2(53) * pow2(10)) by (nonlinear_arith)
                        requires m < pow2(53), p <= pow2(10), p > 0;
                    lemma_pow2_adds(53, 10);
                }
                let mag = m * p;
                if self.negative { Some(-(mag as i64)) } else { Some(mag as i64) }
            } else if s == 11 && self.negative && self.fraction == 0 {
                proof {
                    lemma_pow2_adds(52, 11);
                }
                Some(i64::MIN)
            } else {
                proof {
                    let ps = pow2(s as nat);
                    if s > 11 {
                        lemma_pow2_strictly_increases(11, s as nat);
                    }
                    lemma_pow2_adds(52, 11);
                    assert(m * ps >= pow2(52) * pow2(11)) by (nonlinear_arith)
                        requires m >= pow2(52), ps >= pow2(11), pow2(52) > 0;
                    if self.negative {
                        assert(m * ps > pow2(52) * pow2(11)) by (nonlinear_arith)
                            requires m >= pow2(52), ps >= pow2(11), pow2(52) > 0, pow2(11) > 0,
                                m > pow2(52) || ps > pow2(11);
                    }
                }
                None
            }
        } else if e >= EXPONENT_BIAS {
            let s: u64 = (1075 - e) as u64;
            let p = power_of_two(s);
            if m % p == 0 {
                let q = m / p;
                proof {
                    lemma_pow2_pos(s as nat);
                    lemma_div_is_ordered(m as int, pow2(53) as int, p as int);
                    assert(pow2(53) as int / p as int <= pow2(53)) by (nonlinear_arith)
                        requires p >= 1, pow2(53) > 0;
                }
                if self.negative { Some(-(q as i64)) } else { Some(q as i64) }
            } else {
                None
            }
        } else {
            None
        }
    }

    /// The number nearest to the integer `i` (ties to an even significand), as
    /// the engine widens a host integer; exact for every integer of at most 53
    /// significant bits.
    pub fn from_integer(i: i64) -> (r: Double)
        ensures
            r.wf(),
            r.negative == (i < 0),
            whole_value(r) == Some(rounded_integer(i as int)),
    {
        proof {
            lemma2_to64();
            lemma2_to64_rest();
        }
        let negative = i < 0;
        let n: u64 = if i == i64::MIN {
            0x8000_0000_0000_0000
        } else if negative {
            (-i) as u64
        } else {
            i as u64
        };
        assert(n as int == if i < 0 { -(i as int) } else { i as int });
        if n == 0 {
            return Double { negative: false, exponent: 0, fraction: 0 };
        }
        let mut p: u64 = 0;
        let mut t: u64 = n;
        proof {
            lemma_top_bit_below_64(n as nat);
        }
        while t >= 2
            invariant
                1 <= t <= n,
                top_bit(n as nat) == p + top_bit(t as nat),
                top_bit(n as nat) < 64,
            decreases t,
        {
            t = t / 2;
            p = p + 1;
        }
        assert(p == top_bit(n as nat));
        proof {
            lemma2_to64();
            lemma2_to64_rest();
            lemma_top_bit_bounds(n as nat);
        }
        if p <= 52 {
            let k: u64 = 52 - p;
            let scale = power_of_two(k);
            proof {
                lemma_pow2_adds((p + 1) as nat, k as nat);
                lemma_pow2_adds(p as nat, k as nat);
                assert(n * scale < pow2((p + 1) as nat) * scale) by (nonlinear_arith)
                    requires n < pow2((p + 1) as nat), scale > 0;
                assert(n * scale >= pow2(p as nat) * scale) by (nonlinear_arith)
                    requires n >= pow2(p as nat), scale > 0;
            }
            let m = n * scale;
            let r = Double { negative, exponent: EXPONENT_BIAS + p as u16, fraction: m - HIDDEN_BIT };
            proof {
                let e = r.exponent as int;
                assert(significand(r) == m);
                if p < 52 {
                    assert((1075 - e) as nat == k);
                    lemma_mod_multiples_basic(n as int, scale as int);
                    lemma_div_by_multiple(n as int, scale as int);
                    assert(whole_value(r) == Some(signed(negative, n as int)));
                } else {
                    assert(e == 1075);
                    assert((e - 1075) as nat == 0);
                    assert(pow2(0) == 1);
                    assert(m == n) by (nonlinear_arith)
                        requires m == n * scale, scale == 1;
                    assert(whole_value(r) == Some(signed(negative, n as int)));
                }
                assert(rounded_magnitude(n as nat) == n);
            }
            r
        } else {
            let s: u64 = p - 52;
            let ps = power_of_two(s);
            let q = n / ps;
            let rem = n % ps;
            let h = ps / 2;
            proof {
                lemma_pow2_unfold(s as nat);
                lemma_pow2_adds(52, s as nat);
                lemma_pow2_adds(53, s as nat);
                lemma_fundamental_div_mod(n as int, ps as int);
                assert(q >= pow2(52)) by {
                    lemma_div_is_ordered((pow2(52) * ps) as int, n as int, ps as int);
                    lemma_div_by_multiple(pow2(52) as int, ps as int);
                }
                assert(q < pow2(53)) by (nonlinear_arith)
                    requires n == ps * q + rem, rem >= 0, n < pow2(53) * ps, ps > 0;
            }
            let up = rem > h || (rem == h && q % 2 == 1);
            let q2 = if up { q + 1 } else { q };
            proof {
                assert(rounded_magnitude(n as nat) == q2 * pow2(s as nat));
            }
            if q2 == HIDDEN_BIT * 2 {
                let r = Double { negative, exponent: EXPONENT_BIAS + p as u16 + 1, fraction: 0 };
                proof {
                    lemma_pow2_adds(52, (s + 1) as nat);
                    lemma_pow2_unfold((s + 1) as nat);
                    assert(((r.exponent as int) - 1075) as nat == s + 1);
                    assert(whole_value(r) == Some(signed(negative, q2 * pow2(s as nat))));
                }
                r
            } else {
                let r = Double { negative, exponent: EXPONENT_BIAS + p as u16, fraction: q2 - HIDDEN_BIT };
                proof {
                    assert(((r.exponent as int) - 1075) as nat == s);
                    assert(whole_value(r) == Some(signed(negative, q2 * pow2(s as nat))));
                }
                r
            }
        }
    }
}

} // verus!
