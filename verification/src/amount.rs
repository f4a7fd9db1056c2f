//! Exact decimal amounts of money, held as a sign, an integer mantissa
//! and a power-of-ten scale. The value denoted is `mantissa / 10^scale`,
//! negated when the sign is set. All reasoning is done over the value
//! scaled to a fixed exponent, which is an integer because the scale is
//! bounded.

use vstd::prelude::*;
use vstd::arithmetic::power::{pow, lemma_pow_adds, lemma_pow_positive, lemma_pow_increases};
use vstd::arithmetic::div_mod::{lemma_fundamental_div_mod, lemma_mod_division_less_than_divisor};
use vstd::arithmetic::mul::{
    lemma_mul_inequality, lemma_mul_strict_inequality, lemma_mul_is_distributive_add_other_way,
    lemma_mul_is_commutative, lemma_mul_unary_negation, lemma_mul_strictly_positive,
    lemma_mul_nonnegative,
};

verus! {

/// Ten raised to the given power.
pub open spec fn pow10(e: nat) -> int {
    pow(10, e)
}

/// The largest mantissa magnitude an amount can carry: `2^96 - 1`,
/// the bound that the decimal library guarantees.
pub const MAX_MANTISSA: u128 = 0xFFFF_FFFF_FFFF_FFFF_FFFF_FFFF;

/// The largest scale an amount can carry.
pub const MAX_SCALE: u32 = 28;

/// An exact decimal amount.
#[derive(Clone, Copy, Debug)]
pub struct Amount {
    /// Whether the value is negative. Zero is never marked negative.
    pub neg: bool,
    /// The magnitude of the mantissa.
    pub mantissa: u128,
    /// The number of fractional digits.
    pub scale: u32,
}

impl Amount {
    /// Well-formedness: the bounds of the decimal library, and a
    /// canonical sign for zero.
    pub open spec fn inv(self) -> bool {
        self.mantissa <= MAX_MANTISSA
        && self.scale <= MAX_SCALE
        && (self.mantissa == 0 ==> self.neg == false)
    }

    /// The magnitude of the value, scaled by `10^28`.
    pub open spec fn abs_units(self) -> int {
        self.mantissa * pow10((28 - self.scale) as nat)
    }

    /// The signed value, scaled by `10^28`.
    pub open spec fn units(self) -> int {
        if self.neg {
            -self.abs_units()
        } else {
            self.abs_units()
        }
    }

    /// The zero amount with no fractional digits.
    pub fn zero() -> (r: Amount)
        ensures
            r.inv(),
            r.units() == 0,
            r.scale == 0,
    {
        let r = Amount { neg: false, mantissa: 0, scale: 0 };
        proof {
            assert(r.abs_units() == 0) by {
                lemma_mul_basics_for(pow10(28));
            }
        }
        r
    }

    /// Build an amount from a signed mantissa and a scale, when both are
    /// within the representable bounds.
    pub fn from_parts(mantissa: i128, scale: u32) -> (r: Option<Amount>)
        ensures
            r.is_some() == (-(MAX_MANTISSA as i128) <= mantissa <= MAX_MANTISSA as i128
                && scale <= MAX_SCALE),
            r.is_some() ==> {
                let a = r.unwrap();
                a.inv()
                && a.scale == scale
                && a.units() == mantissa * pow10((28 - scale) as nat)
            },
    {
        if scale > MAX_SCALE {
            return None;
        }
        let neg = mantissa < 0;
        if mantissa >= 0 {
            let mag = mantissa as u128;
            if mag > MAX_MANTISSA {
                return None;
            }
            let a = Amount { neg: false, mantissa: mag, scale };
            Some(a)
        } else {
            if mantissa < -(MAX_MANTISSA as i128) {
                return None;
            }
            let mag = (-mantissa) as u128;
            if mag == 0 {
                let a = Amount { neg: false, mantissa: 0, scale };
                proof {
                    lemma_mul_basics_for(pow10((28 - scale) as nat));
                }
                return Some(a);
            }
            let a = Amount { neg: true, mantissa: mag, scale };
            proof {
                lemma_mul_unary_negation(mag as int, pow10((28 - scale) as nat));
            }
            Some(a)
        }
    }
}

proof fn lemma_mul_basics_for(x: int)
    ensures
        0 * x == 0,
{
}

/// `10^e` as a 128-bit integer; `10^28` fits comfortably.
pub fn p10_128(e: u32) -> (r: u128)
    requires
        e <= 28,
    ensures
        r as int == pow10(e as nat),
        r >= 1,
{
    proof {
        lemma_pow10_28_value();
    }
    let mut r: u128 = 1;
    let mut i: u32 = 0;
    assert(r as int == pow10(0)) by {
        vstd::arithmetic::power::lemma_pow0(10);
    }
    while i < e
        invariant
            i <= e <= 28,
            r as int == pow10(i as nat),
        decreases e - i,
    {
        proof {
            assert(pow10((i + 1) as nat) == 10 * pow10(i as nat)) by {
                vstd::arithmetic::power::lemma_pow1(10);
                lemma_pow_adds(10, 1, i as nat);
            }
            lemma_pow_increases(10, (i + 1) as nat, 28);
            lemma_pow10_28_value();
        }
        r = r * 10;
        i = i + 1;
    }
    proof {
        lemma_pow_positive(10, e as nat);
    }
    r
}

proof fn lemma_pow10_step(e: nat)
    ensures
        pow10(e + 1) == 10 * pow10(e),
{
    vstd::arithmetic::power::lemma_pow1(10);
    lemma_pow_adds(10, 1, e);
}

proof fn lemma_pow10_28_value()
    ensures
        pow10(28) == 10000000000000000000000000000,
{
    assert(pow10(0) == 1) by {
        vstd::arithmetic::power::lemma_pow0(10);
    }
    lemma_pow10_step(0);
    lemma_pow10_step(1);
    lemma_pow10_step(2);
    lemma_pow10_step(3);
    lemma_pow10_step(4);
    lemma_pow10_step(5);
    lemma_pow10_step(6);
    lemma_pow10_step(7);
    lemma_pow10_step(8);
    lemma_pow10_step(9);
    lemma_pow10_step(10);
    lemma_pow10_step(11);
    lemma_pow10_step(12);
    lemma_pow10_step(13);
    lemma_pow10_step(14);
    lemma_pow10_step(15);
    lemma_pow10_step(16);
    lemma_pow10_step(17);
    lemma_pow10_step(18);
    lemma_pow10_step(19);
    lemma_pow10_step(20);
    lemma_pow10_step(21);
    lemma_pow10_step(22);
    lemma_pow10_step(23);
    lemma_pow10_step(24);
    lemma_pow10_step(25);
    lemma_pow10_step(26);
    lemma_pow10_step(27);
}

proof fn lemma_abs_units_split(m: int, s: nat)
    requires
        m >= 0,
        s <= 28,
    ensures
        m * pow10((28 - s) as nat)
            == (m / pow10(s)) * pow10(28) + (m % pow10(s)) * pow10((28 - s) as nat),
        0 <= (m % pow10(s)) * pow10((28 - s) as nat) < pow10(28),
        0 <= m / pow10(s),
{
    let p = pow10(s);
    let k = pow10((28 - s) as nat);
    lemma_pow_positive(10, s);
    lemma_pow_positive(10, (28 - s) as nat);
    lemma_pow_adds(10, s, (28 - s) as nat);
    assert(p * k == pow10(28));
    lemma_fundamental_div_mod(m, p);
    let q = m / p;
    let r = m % p;
    lemma_mod_division_less_than_divisor(m, p);
    assert(0 <= r < p);
    assert(q >= 0) by {
        vstd::arithmetic::div_mod::lemma_div_pos_is_pos(m, p);
    }
    assert(m * k == (p * q + r) * k);
    assert((p * q + r) * k == (p * q) * k + r * k) by {
        lemma_mul_is_distributive_add_other_way(k, p * q, r);
    }
    assert((p * q) * k == q * (p * k)) by (nonlinear_arith);
    assert(r * k < p * k) by {
        lemma_mul_strict_inequality(r, p, k);
        lemma_mul_is_commutative(r, k);
        lemma_mul_is_commutative(p, k);
    }
    lemma_mul_nonnegative(r, k);
}

proof fn lemma_lex_compare(qa: int, fa: int, qb: int, fb: int, t: int)
    requires
        t > 0,
        0 <= fa < t,
        0 <= fb < t,
        qa >= 0,
        qb >= 0,
    ensures
        (qa * t + fa <= qb * t + fb) == (qa < qb || (qa == qb && fa <= fb)),
{
    if qa < qb {
        assert((qa + 1) * t <= qb * t) by {
            lemma_mul_inequality(qa + 1, qb, t);
        }
        assert((qa + 1) * t == qa * t + t) by {
            lemma_mul_is_distributive_add_other_way(t, qa, 1);
        }
    } else if qa > qb {
        assert((qb + 1) * t <= qa * t) by {
            lemma_mul_inequality(qb + 1, qa, t);
        }
        assert((qb + 1) * t == qb * t + t) by {
            lemma_mul_is_distributive_add_other_way(t, qb, 1);
        }
    }
}

impl Amount {
    /// Whether `|self| <= |other|`, comparing exact values.
    pub fn abs_le(&self, other: &Amount) -> (r: bool)
        requires
            self.inv(),
            other.inv(),
        ensures
            r == (self.abs_units() <= other.abs_units()),
    {
        proof {
            lemma_pow10_28_value();
        }
        let pa = p10_128(self.scale);
        let ka = p10_128(28 - self.scale);
        let qa = self.mantissa / pa;
        let ra = self.mantissa % pa;
        proof {
            lemma_abs_units_split(self.mantissa as int, self.scale as nat);
        }
        let fa = ra * ka;
        let pb = p10_128(other.scale);
        let kb = p10_128(28 - other.scale);
        let qb = other.mantissa / pb;
        let rb = other.mantissa % pb;
        proof {
            lemma_abs_units_split(other.mantissa as int, other.scale as nat);
        }
        let fb = rb * kb;
        proof {
            lemma_lex_compare(qa as int, fa as int, qb as int, fb as int, pow10(28));
        }
        qa < qb || (qa == qb && fa <= fb)
    }

    /// Whether `self <= other`, comparing exact signed values.
    pub fn le(&self, other: &Amount) -> (r: bool)
        requires
            self.inv(),
            other.inv(),
        ensures
            r == (self.units() <= other.units()),
    {
        proof {
            if self.neg {
                assert(self.abs_units() > 0) by {
                    lemma_pow_positive(10, (28 - self.scale) as nat);
                    lemma_mul_strictly_positive(self.mantissa as int, pow10((28 - self.scale) as nat));
                }
            } else {
                assert(self.abs_units() >= 0) by {
                    lemma_pow_positive(10, (28 - self.scale) as nat);
                    lemma_mul_nonnegative(self.mantissa as int, pow10((28 - self.scale) as nat));
                }
            }
            if other.neg {
                assert(other.abs_units() > 0) by {
                    lemma_pow_positive(10, (28 - other.scale) as nat);
                    lemma_mul_strictly_positive(other.mantissa as int, pow10((28 - other.scale) as nat));
                }
            } else {
                assert(other.abs_units() >= 0) by {
                    lemma_pow_positive(10, (28 - other.scale) as nat);
                    lemma_mul_nonnegative(other.mantissa as int, pow10((28 - other.scale) as nat));
                }
            }
        }
        if self.neg && !other.neg {
            true
        } else if !self.neg && other.neg {
            false
        } else if !self.neg {
            self.abs_le(other)
        } else {
            other.abs_le(self)
        }
    }

    /// Whether the two amounts denote the same value, whatever their scales.
    pub fn eq_value(&self, other: &Amount) -> (r: bool)
        requires
            self.inv(),
            other.inv(),
        ensures
            r == (self.units() == other.units()),
    {
        self.le(other) && other.le(self)
    }

    /// Whether the value is zero.
    pub fn is_zero(&self) -> (r: bool)
        requires
            self.inv(),
        ensures
            r == (self.units() == 0),
    {
        proof {
            lemma_pow_positive(10, (28 - self.scale) as nat);
            if self.mantissa > 0 {
                lemma_mul_strictly_positive(self.mantissa as int, pow10((28 - self.scale) as nat));
            }
        }
        self.mantissa == 0
    }

    /// Whether the value is strictly positive.
    pub fn is_strictly_positive(&self) -> (r: bool)
        requires
            self.inv(),
        ensures
            r == (self.units() > 0),
    {
        proof {
            lemma_pow_positive(10, (28 - self.scale) as nat);
            if self.mantissa > 0 {
                lemma_mul_strictly_positive(self.mantissa as int, pow10((28 - self.scale) as nat));
            } else {
                lemma_mul_basics_for(pow10((28 - self.scale) as nat));
            }
        }
        !self.neg && self.mantissa > 0
    }

    /// The negated amount; zero stays zero.
    pub fn negated(&self) -> (r: Amount)
        requires
            self.inv(),
        ensures
            r.inv(),
            r.units() == -self.units(),
            r.scale == self.scale,
    {
        if self.mantissa == 0 {
            proof {
                lemma_mul_basics_for(pow10((28 - self.scale) as nat));
            }
            *self
        } else {
            Amount { neg: !self.neg, mantissa: self.mantissa, scale: self.scale }
        }
    }

    /// The textual form of the amount: the sign, the integer part, and —
    /// when the scale is positive — a point followed by exactly `scale`
    /// fractional digits.
    pub open spec fn spec_str(self) -> Seq<char> {
        let sign: Seq<char> = if self.neg { seq!['-'] } else { Seq::<char>::empty() };
        if self.scale == 0 {
            sign + crate::strutil::spec_dec(self.mantissa as nat)
        } else {
            let p = pow10(self.scale as nat);
            let q = self.mantissa as int / p;
            let r = self.mantissa as int % p;
            sign + crate::strutil::spec_dec(q as nat) + seq!['.']
                + crate::strutil::spec_dec_pad(r as nat, self.scale as nat)
        }
    }

    /// Render the amount as text.
    pub fn to_text(&self) -> (r: String)
        requires
            self.inv(),
        ensures
            r@ == self.spec_str(),
    {
        let mut out = String::new();
        if self.neg {
            proof {
                reveal_strlit("-");
            }
            out.append("-");
            proof {
                assert(out@ =~= seq!['-']);
            }
        }
        if self.scale == 0 {
            crate::strutil::push_dec_u128(&mut out, self.mantissa);
            proof {
                assert(out@ =~= self.spec_str());
            }
        } else {
            let p = p10_128(self.scale);
            let q = self.mantissa / p;
            let r = self.mantissa % p;
            proof {
                lemma_pow_positive(10, self.scale as nat);
                vstd::arithmetic::div_mod::lemma_div_pos_is_pos(self.mantissa as int, p as int);
                lemma_mod_division_less_than_divisor(self.mantissa as int, p as int);
            }
            crate::strutil::push_dec_u128(&mut out, q);
            proof {
                reveal_strlit(".");
            }
            out.append(".");
            crate::strutil::push_dec_pad_u128(&mut out, r, self.scale);
            proof {
                assert(out@ =~= self.spec_str());
            }
        }
        out
    }
}

/// What the decimal library reads out of a string: the signed mantissa
/// and the scale, or nothing when the text is not an exact decimal.
pub uninterp spec fn spec_decimal_of(s: Seq<char>) -> Option<(int, nat)>;

/// Relies on `rust_decimal::Decimal::from_str_exact`, `Decimal::mantissa`
/// and `Decimal::scale`: an exact parse of decimal text, whose result is a
/// function of the text alone, with a 96-bit mantissa magnitude and a
/// scale of at most 28.
#[verifier::external_body]
fn decimal_from_str(s: &str) -> (r: Option<(i128, u32)>)
    ensures
        r.is_some() == spec_decimal_of(s@).is_some(),
        r.is_some() ==> {
            let (m, sc) = r.unwrap();
            spec_decimal_of(s@) == Some((m as int, sc as nat))
            && -(MAX_MANTISSA as int) <= m as int <= MAX_MANTISSA as int
            && sc <= MAX_SCALE
        },
{
    match rust_decimal::Decimal::from_str_exact(s) {
        Ok(d) => Some((d.mantissa(), d.scale())),
        Err(_) => None,
    }
}

/// The magnitude is never negative, and the signed value negates it
/// exactly when the sign is set.
pub proof fn lemma_abs_units_nonneg(a: Amount)
    ensures
        a.abs_units() >= 0,
        a.abs_units() == if a.units() >= 0 { a.units() } else { -a.units() },
{
    lemma_pow_positive(10, (28 - a.scale) as nat);
    lemma_mul_nonnegative(a.mantissa as int, pow10((28 - a.scale) as nat));
}

/// Read a string as an exact decimal amount, if it is one.
pub fn parse_amount(s: &str) -> (r: Option<Amount>)
    ensures
        r.is_some() == spec_decimal_of(s@).is_some(),
        r.is_some() ==> {
            let a = r.unwrap();
            let (m, sc) = spec_decimal_of(s@).unwrap();
            a.inv() && a.units() == m * pow10((28 - sc) as nat) && a.scale == sc
        },
{
    match decimal_from_str(s) {
        Some((m, sc)) => Some(Amount::from_parts(m, sc).unwrap()),
        None => None,
    }
}

/// The amount that a raw text denotes: the exact decimal it holds, or
/// zero when it holds none, negated when the account's sign convention
/// asks for it.
pub open spec fn spec_interpret_amount(s: Seq<char>, negate: bool) -> (int, nat) {
    match spec_decimal_of(s) {
        Some((m, sc)) => (if negate { -m } else { m }, sc),
        None => (0, 0),
    }
}

/// Convert a dollar amount in string form into an exact amount,
/// defaulting to zero if it cannot be converted, and negating it when
/// the sign convention of the source bank requires that.
pub fn interpret_dollar_amount(amount: &str, negate: bool) -> (r: Amount)
    ensures
        r.inv(),
        ({
            let (m, sc) = spec_interpret_amount(amount@, negate);
            r.units() == m * pow10((28 - sc) as nat) && r.scale == sc
        }),
{
    match decimal_from_str(amount) {
        Some((m, sc)) => {
            let a = Amount::from_parts(m, sc).unwrap();
            if negate {
                let n = a.negated();
                proof {
                    lemma_mul_unary_negation(m as int, pow10((28 - sc) as nat));
                }
                n
            } else {
                a
            }
        }
        None => Amount::zero(),
    }
}

impl PartialEq for Amount {
    /// Two amounts are equal when they denote the same value, whatever
    /// their scales. Contracts never rely on this operator — they speak
    /// through `eq_value` — so no meaning is claimed for it; values
    /// outside the invariant fall back to a field comparison.
    fn eq(&self, other: &Amount) -> (r: bool) {
        if self.mantissa > MAX_MANTISSA || self.scale > MAX_SCALE
            || other.mantissa > MAX_MANTISSA || other.scale > MAX_SCALE {
            let se = self.neg == other.neg;
            se && self.mantissa == other.mantissa && self.scale == other.scale
        } else {
            let a = Amount {
                neg: if self.mantissa == 0 { false } else { self.neg },
                mantissa: self.mantissa,
                scale: self.scale,
            };
            let b = Amount {
                neg: if other.mantissa == 0 { false } else { other.neg },
                mantissa: other.mantissa,
                scale: other.scale,
            };
            a.eq_value(&b)
        }
    }
}

impl vstd::std_specs::cmp::PartialEqSpecImpl for Amount {
    open spec fn obeys_eq_spec() -> bool {
        false
    }

    open spec fn eq_spec(&self, other: &Amount) -> bool {
        self.units() == other.units()
    }
}

} // verus!
