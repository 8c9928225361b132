//! The library's floating-point stand-in: a signed decimal of the form
//! `±mantissa / 10^scale`, kept normalized (no trailing fractional zeros,
//! a unique zero). It carries the fractional values of the filter grammar
//! and renders with two digits after the decimal point.

use vstd::prelude::*;

use vstd::slice::{slice_subrange, slice_to_vec};

use crate::text::{
    digit_char, digit_of, digits_to_u64, digits_to_u64_spec, find_char, find_sep, lemma_find_sep,
    lemma_find_sep_at, match_at, push_u64, u64_digits,
};

verus! {

/// A signed decimal number `±mantissa / 10^scale`.
#[derive(Debug, PartialEq, Eq, Structural, Clone, Copy)]
pub struct Decimal {
    pub neg: bool,
    pub mantissa: u64,
    pub scale: u32,
}

/// `10^k` (and 1 for `k <= 0`).
pub open spec fn pow10(k: int) -> int
    decreases k,
{
    if k <= 0 {
        1
    } else {
        10 * pow10(k - 1)
    }
}

pub proof fn lemma_pow10_positive(k: int)
    ensures
        pow10(k) >= 1,
    decreases k,
{
    if k > 0 {
        lemma_pow10_positive(k - 1);
    }
}

pub proof fn lemma_pow10_monotone(a: int, b: int)
    requires
        a <= b,
    ensures
        1 <= pow10(a) <= pow10(b),
    decreases b - a,
{
    if a < b {
        if b <= 0 {
            assert(pow10(a) == 1);
        } else {
            lemma_pow10_monotone(a, b - 1);
            lemma_pow10_positive(b - 1);
            assert(pow10(b) == 10 * pow10(b - 1));
        }
    } else {
        lemma_pow10_positive(a);
    }
}

pub proof fn lemma_pow10_bound18(k: int)
    requires
        k <= 18,
    ensures
        1 <= pow10(k) <= 1000000000000000000,
{
    lemma_pow10_monotone(k, 18);
    assert(pow10(18) == 1000000000000000000) by {
        assert(pow10(0) == 1);
        assert(pow10(1) == 10);
        assert(pow10(2) == 100);
        assert(pow10(3) == 1000);
        assert(pow10(4) == 10000);
        assert(pow10(5) == 100000);
        assert(pow10(6) == 1000000);
        assert(pow10(7) == 10000000);
        assert(pow10(8) == 100000000);
        assert(pow10(9) == 1000000000);
        assert(pow10(10) == 10000000000);
        assert(pow10(11) == 100000000000);
        assert(pow10(12) == 1000000000000);
        assert(pow10(13) == 10000000000000);
        assert(pow10(14) == 100000000000000);
        assert(pow10(15) == 1000000000000000);
        assert(pow10(16) == 10000000000000000);
        assert(pow10(17) == 100000000000000000);
        assert(pow10(18) == 1000000000000000000);
    }
}

/// Executable `10^k` for small `k`.
pub fn pow10_u64(k: u32) -> (r: u64)
    requires
        k <= 18,
    ensures
        r == pow10(k as int),
{
    let mut r: u64 = 1;
    let mut i: u32 = 0;
    while i < k
        invariant
            i <= k <= 18,
            r == pow10(i as int),
        decreases k - i,
    {
        proof {
            lemma_pow10_bound18(i as int + 1);
        }
        r = r * 10;
        i = i + 1;
    }
    r
}

/// The normal form of `±m / 10^s`: trailing fractional zeros stripped, and
/// zero made positive with scale zero.
pub open spec fn normal_dec(neg: bool, m: u64, s: u32) -> Decimal
    decreases s,
{
    if s > 0 && m % 10 == 0 {
        normal_dec(neg, (m / 10) as u64, (s - 1) as u32)
    } else if m == 0 {
        Decimal { neg: false, mantissa: 0, scale: 0 }
    } else {
        Decimal { neg, mantissa: m, scale: s }
    }
}

pub proof fn lemma_normal_dec(neg: bool, m: u64, s: u32)
    requires
        s <= 18,
    ensures
        normal_dec(neg, m, s).well_formed(),
        normal_dec(neg, m, s).scaled_value() == (Decimal { neg, mantissa: m, scale: s }).scaled_value(),
    decreases s,
{
    if s > 0 && m % 10 == 0 {
        lemma_normal_dec(neg, (m / 10) as u64, (s - 1) as u32);
        let p = pow10(18 - s);
        lemma_pow10_positive(18 - s);
        assert(pow10(18 - (s - 1)) == 10 * p);
        assert(m == (m / 10) * 10) by (nonlinear_arith)
            requires
                m % 10 == 0,
                m >= 0,
        ;
        assert((m / 10) * (10 * p) == ((m / 10) * 10) * p) by (nonlinear_arith);
        assert(pow10(18 - (s - 1)) == 10 * p);
        assert((m / 10) * pow10(18 - (s - 1)) == m * pow10(18 - s));
    } else if m == 0 {
    } else {
    }
}

impl Decimal {
    /// The normalization every held `Decimal` obeys: no trailing zero in
    /// the fraction, zero is positive with scale zero, and the scale is
    /// small enough for exact comparison arithmetic.
    pub open spec fn well_formed(&self) -> bool {
        &&& (self.scale > 0 ==> self.mantissa % 10 != 0)
        &&& (self.mantissa == 0 ==> !self.neg && self.scale == 0)
        &&& self.scale <= 18
    }

    /// The value of this decimal scaled by `10^18`, as an integer: two
    /// decimals are numerically equal or ordered exactly as these integers
    /// are.
    pub open spec fn scaled_value(&self) -> int {
        let mag = self.mantissa * pow10(18 - self.scale);
        if self.neg {
            -mag
        } else {
            mag
        }
    }

    /// Builds the normalized decimal `±m / 10^s`.
    pub fn new(neg: bool, m: u64, s: u32) -> (r: Decimal)
        requires
            s <= 18,
        ensures
            r == normal_dec(neg, m, s),
            r.well_formed(),
    {
        proof {
            lemma_normal_dec(neg, m, s);
        }
        let ghost m0 = m;
        let ghost s0 = s;
        let mut m = m;
        let mut s = s;
        while s > 0 && m % 10 == 0
            invariant
                s <= 18,
                normal_dec(neg, m, s) == normal_dec(neg, m0, s0),
            decreases s,
        {
            m = m / 10;
            s = s - 1;
        }
        if m == 0 {
            Decimal { neg: false, mantissa: 0, scale: 0 }
        } else {
            Decimal { neg, mantissa: m, scale: s }
        }
    }

    /// The magnitude of this decimal scaled by `10^18`, which fits a
    /// 128-bit integer.
    fn scaled_magnitude(&self) -> (r: u128)
        requires
            self.scale <= 18,
        ensures
            r == self.mantissa * pow10(18 - self.scale),
    {
        let p = pow10_u64(18 - self.scale);
        proof {
            lemma_pow10_bound18(18 - self.scale);
            assert(self.mantissa * pow10(18 - self.scale) <= u64::MAX
                * 1000000000000000000int) by (nonlinear_arith)
                requires
                    self.mantissa <= u64::MAX,
                    1 <= pow10(18 - self.scale) <= 1000000000000000000,
            ;
            assert(u64::MAX * 1000000000000000000int < u128::MAX) by (nonlinear_arith);
        }
        (self.mantissa as u128) * (p as u128)
    }

    /// Numeric strict ordering: true when this decimal is below `other`.
    pub fn lt(&self, other: &Decimal) -> (r: bool)
        requires
            self.scale <= 18,
            other.scale <= 18,
        ensures
            r == (self.scaled_value() < other.scaled_value()),
    {
        let ma = self.scaled_magnitude();
        let mb = other.scaled_magnitude();
        if self.neg == other.neg {
            if self.neg {
                mb < ma
            } else {
                ma < mb
            }
        } else if self.neg {
            // a <= 0 <= b; strict unless both are zero
            ma > 0 || mb > 0
        } else {
            false
        }
    }

    /// Numeric equality: true when this decimal and `other` denote the same
    /// number.
    pub fn num_eq(&self, other: &Decimal) -> (r: bool)
        requires
            self.scale <= 18,
            other.scale <= 18,
        ensures
            r == (self.scaled_value() == other.scaled_value()),
    {
        let ma = self.scaled_magnitude();
        let mb = other.scaled_magnitude();
        if self.neg == other.neg {
            ma == mb
        } else {
            ma == 0 && mb == 0
        }
    }
}

} // verus!

verus! {

/// The text of a decimal after its optional sign.
pub open spec fn float_body(s: Seq<char>) -> Seq<char> {
    if s.len() > 0 && (s[0] == '+' || s[0] == '-') {
        s.drop_first()
    } else {
        s
    }
}

/// Whether the decimal's text carries a minus sign.
pub open spec fn float_neg(s: Seq<char>) -> bool {
    s.len() > 0 && s[0] == '-'
}

/// The decimal a string denotes: an optional sign, decimal digits with at
/// most one point, at least one digit in all, at most eighteen fractional
/// digits, and a mantissa within the 64-bit range — anything else is
/// rejected.
pub open spec fn parse_float_spec(s: Seq<char>) -> Option<Decimal> {
    let b = float_body(s);
    match find_sep(b, seq!['.']) {
        None => match digits_to_u64_spec(b) {
            Some(v) => Some(normal_dec(float_neg(s), v, 0)),
            None => None,
        },
        Some(i) => {
            let ip = b.take(i);
            let fp = b.skip(i + 1);
            if fp.len() <= 18 {
                match digits_to_u64_spec(ip + fp) {
                    Some(v) => Some(normal_dec(float_neg(s), v, fp.len() as u32)),
                    None => None,
                }
            } else {
                None
            }
        },
    }
}

/// Parses `s` as a signed decimal number.
pub fn parse_float(s: &[char]) -> (r: Option<Decimal>)
    ensures
        r == parse_float_spec(s@),
        r is Some ==> r->Some_0.well_formed(),
{
    let n = s.len();
    let sign = n > 0 && (s[0] == '+' || s[0] == '-');
    let neg = n > 0 && s[0] == '-';
    let start: usize = if sign {
        1
    } else {
        0
    };
    let b = slice_subrange(s, start, n);
    proof {
        assert(b@ =~= float_body(s@));
        assert(neg == float_neg(s@));
    }
    match find_char(b, '.') {
        None => {
            match digits_to_u64(b) {
                Some(v) => Some(Decimal::new(neg, v, 0)),
                None => None,
            }
        },
        Some(i) => {
            proof {
                lemma_find_sep(b@, seq!['.']);
                assert(match_at(b@, seq!['.'], i as int));
            }
            let ip = slice_subrange(b, 0, i);
            let fp = slice_subrange(b, i + 1, b.len());
            proof {
                assert(ip@ =~= b@.take(i as int));
                assert(fp@ =~= b@.skip(i as int + 1));
            }
            if fp.len() > 18 {
                return None;
            }
            let mut cat = slice_to_vec(ip);
            let mut fpv = slice_to_vec(fp);
            cat.append(&mut fpv);
            proof {
                assert(cat@ =~= ip@ + fp@);
            }
            match digits_to_u64(cat.as_slice()) {
                Some(v) => Some(Decimal::new(neg, v, fp.len() as u32)),
                None => None,
            }
        },
    }
}

/// Two fractional digit characters, high digit first.
pub open spec fn two_frac(f: int) -> Seq<char> {
    seq![digit_char(f / 10), digit_char(f % 10)]
}

/// The decimal's value scaled to hundredths and rounded to the nearest
/// (ties away from zero), as an integer.
pub open spec fn dec_scaled2(d: Decimal) -> int {
    if d.scale <= 2 {
        d.mantissa * pow10(2 - d.scale)
    } else {
        let p = pow10(d.scale - 2);
        d.mantissa as int / p + if 2 * (d.mantissa as int % p) >= p {
            1int
        } else {
            0int
        }
    }
}

/// The rendering of a decimal with exactly two digits after the point: an
/// optional minus sign, the integer digits, the point, and two fractional
/// digits.
pub open spec fn dec_display(d: Decimal) -> Seq<char> {
    let sc = dec_scaled2(d);
    (if d.neg {
        seq!['-']
    } else {
        Seq::<char>::empty()
    }) + u64_digits(sc / 100) + seq!['.'] + two_frac(sc % 100)
}

impl Decimal {
    /// Appends the two-decimal rendering of this decimal to `out`.
    pub fn push_text(&self, out: &mut Vec<char>)
        requires
            self.well_formed(),
        ensures
            final(out)@ == old(out)@ + dec_display(*self),
    {
        if self.neg {
            out.push('-');
        }
        let sc: u128 = if self.scale <= 2 {
            let p = pow10_u64(2 - self.scale);
            proof {
                lemma_pow10_monotone(2 - self.scale, 2);
                assert(pow10(0) == 1);
                assert(pow10(1) == 10);
                assert(pow10(2) == 100);
                assert(self.mantissa * pow10(2 - self.scale) <= u64::MAX * 100int)
                    by (nonlinear_arith)
                    requires
                        self.mantissa <= u64::MAX,
                        1 <= pow10(2 - self.scale) <= 100,
                ;
            }
            (self.mantissa as u128) * (p as u128)
        } else {
            let p = pow10_u64(self.scale - 2);
            proof {
                lemma_pow10_bound18(self.scale - 2);
            }
            let q = self.mantissa / p;
            let rem = self.mantissa % p;
            let carry: u128 = if (rem as u128) * 2 >= (p as u128) {
                1
            } else {
                0
            };
            proof {
                assert(dec_scaled2(*self) == q + carry);
            }
            (q as u128) + carry
        };
        proof {
            assert(sc == dec_scaled2(*self));
            assert(sc / 100 <= u64::MAX) by (nonlinear_arith)
                requires
                    0 <= sc,
                    sc <= u64::MAX * 100int,
            ;
        }
        let int_part = (sc / 100) as u64;
        let frac = (sc % 100) as u64;
        push_u64(out, int_part);
        out.push('.');
        out.push(digit_of(frac / 10));
        out.push(digit_of(frac % 10));
        proof {
            assert(int_part == dec_scaled2(*self) / 100);
            assert(frac == dec_scaled2(*self) % 100);
            assert(out@ =~= old(out)@ + dec_display(*self));
        }
    }
}

} // verus!
