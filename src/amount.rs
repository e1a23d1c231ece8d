use vstd::prelude::*;

verus! {

/// Number of decimal places that an [`Amount`] carries.
pub const SCALE: u32 = 12;

/// Number of units in one whole currency unit (`10^SCALE`).
pub const UNITS_PER_WHOLE: i128 = 1_000_000_000_000;

/// An exact decimal amount of money, counted in `10^-SCALE` of the currency unit.
///
/// Amounts carry at most `SCALE` decimal places and lie within the range of
/// `i128` units (about `1.7e26` whole units either way). Arithmetic is exact:
/// a sum, difference or product that does not fit, or a product that needs
/// more than `SCALE` decimal places, is reported rather than rounded, and text
/// with more decimal places is rejected.
#[derive(Clone, Copy, Debug, PartialEq, Eq, Structural, Hash)]
pub struct Amount {
    pub units: i128,
}

impl Amount {
    /// The amount zero.
    pub fn zero() -> (r: Amount)
        ensures
            r.units == 0,
    {
        Amount { units: 0 }
    }

    /// A whole number of currency units.
    pub fn from_whole(n: i64) -> (r: Amount)
        ensures
            r.units == n * UNITS_PER_WHOLE,
    {
        proof {
            assert(-0x8000_0000_0000_0000 * 1_000_000_000_000 <= n * 1_000_000_000_000 <= 0x7fff_ffff_ffff_ffff * 1_000_000_000_000)
                by (nonlinear_arith)
                requires
                    -0x8000_0000_0000_0000 <= n <= 0x7fff_ffff_ffff_ffff,
            ;
        }
        Amount { units: (n as i128) * UNITS_PER_WHOLE }
    }

    /// The sum of two amounts, or `None` where it does not fit.
    pub fn checked_add(self, other: Amount) -> (r: Option<Amount>)
        ensures
            match r {
                Some(s) => s.units == self.units + other.units,
                None => !fits(self.units + other.units),
            },
    {
        match self.units.checked_add(other.units) {
            Some(u) => Some(Amount { units: u }),
            None => None,
        }
    }

    /// The difference of two amounts, or `None` where it does not fit.
    pub fn checked_sub(self, other: Amount) -> (r: Option<Amount>)
        ensures
            match r {
                Some(s) => s.units == self.units - other.units,
                None => !fits(self.units - other.units),
            },
    {
        match self.units.checked_sub(other.units) {
            Some(u) => Some(Amount { units: u }),
            None => None,
        }
    }

    /// The opposite amount, or `None` for the one amount whose opposite does not fit.
    pub fn checked_neg(self) -> (r: Option<Amount>)
        ensures
            match r {
                Some(s) => s.units == -self.units,
                None => !fits(-self.units),
            },
    {
        if self.units == i128::MIN {
            None
        } else {
            Some(Amount { units: -self.units })
        }
    }

    /// The product of two amounts (a rate times a quantity), or `None` where
    /// it does not fit or needs more than `SCALE` decimal places.
    pub fn checked_mul(self, other: Amount) -> (r: Option<Amount>)
        ensures
            match r {
                Some(p) => p.units * UNITS_PER_WHOLE == self.units * other.units,
                None => !fits(self.units * other.units) || (self.units * other.units) % (
                UNITS_PER_WHOLE as int) != 0,
            },
    {
        match self.units.checked_mul(other.units) {
            Some(p) => {
                if p % UNITS_PER_WHOLE == 0 {
                    Some(Amount { units: p / UNITS_PER_WHOLE })
                } else {
                    None
                }
            },
            None => None,
        }
    }

    /// Whether the amount is below zero.
    pub fn is_negative(&self) -> (r: bool)
        ensures
            r == (self.units < 0),
    {
        self.units < 0
    }

    /// Whether the amount is above zero.
    pub fn is_positive(&self) -> (r: bool)
        ensures
            r == (self.units > 0),
    {
        self.units > 0
    }
}

/// Whether an integer fits in the units of an [`Amount`].
pub open spec fn fits(v: int) -> bool {
    i128::MIN <= v <= i128::MAX
}

/// `10^k`.
pub open spec fn pow10(k: nat) -> int
    decreases k,
{
    if k == 0 {
        1
    } else {
        10 * pow10((k - 1) as nat)
    }
}

proof fn lemma_pow10_bounds(k: nat)
    requires
        k <= 20,
    ensures
        1 <= pow10(k) <= 100_000_000_000_000_000_000,
    decreases k,
{
    if k > 0 {
        lemma_pow10_bounds((k - 1) as nat);
        assert(pow10((k - 1) as nat) <= 10_000_000_000_000_000_000) by {
            if k - 1 < 20 {
                lemma_pow10_bounds((k - 1) as nat);
                lemma_pow10_monotonic((k - 1) as nat, 19);
                reveal_with_fuel(pow10, 20);
            }
        }
    }
}

proof fn lemma_pow10_monotonic(a: nat, b: nat)
    requires
        a <= b,
    ensures
        pow10(a) <= pow10(b),
        pow10(a) >= 1,
    decreases b,
{
    if b > a {
        lemma_pow10_monotonic(a, (b - 1) as nat);
    } else if a > 0 {
        lemma_pow10_monotonic((a - 1) as nat, (a - 1) as nat);
    }
}

fn pow10_exec(k: u32) -> (r: i128)
    requires
        k <= 20,
    ensures
        r == pow10(k as nat),
{
    let mut r: i128 = 1;
    let mut i: u32 = 0;
    while i < k
        invariant
            i <= k <= 20,
            r == pow10(i as nat),
        decreases k - i,
    {
        proof {
            lemma_pow10_monotonic(i as nat, 19);
            reveal_with_fuel(pow10, 20);
        }
        r = r * 10;
        i = i + 1;
    }
    r
}

/// The units of the amount whose value is `m * 10^-scale`, where it is exact
/// and fits.
pub open spec fn units_of_decimal(m: int, scale: int) -> Option<int> {
    if scale <= SCALE {
        let u = m * pow10((SCALE - scale) as nat);
        if fits(u) {
            Some(u)
        } else {
            None
        }
    } else if m % pow10((scale - SCALE) as nat) == 0 {
        Some(m / pow10((scale - SCALE) as nat))
    } else {
        None
    }
}

/// What `rust_decimal` reads from a text: the mantissa and the scale of the
/// decimal, if the text holds one.
pub uninterp spec fn decimal_parse(s: Seq<char>) -> Option<(int, int)>;

/// Relies on `rust_decimal::Decimal::from_str` and on `Decimal::mantissa`
/// and `Decimal::scale`: the decimal that the text holds, if any, as its
/// mantissa and its scale, which is at most 28.
#[verifier::external_body]
fn parse_decimal(s: &str) -> (r: Option<(i128, u32)>)
    ensures
        match r {
            Some((m, sc)) => decimal_parse(s@) == Some((m as int, sc as int)) && sc <= 28,
            None => decimal_parse(s@) is None,
        },
{
    match <rust_decimal::Decimal as core::str::FromStr>::from_str(s) {
        Ok(d) => Some((d.mantissa(), d.scale())),
        Err(_) => None,
    }
}

/// The amount that a text holds, where it holds a decimal that an amount can
/// represent exactly.
pub open spec fn amount_of_text(s: Seq<char>) -> Option<Amount> {
    match decimal_parse(s) {
        Some((m, sc)) => match units_of_decimal(m, sc) {
            Some(u) => Some(Amount { units: u as i128 }),
            None => None,
        },
        None => None,
    }
}

/// The amount that a decimal text holds, or `None` where the text holds no
/// decimal, or one with more than `SCALE` decimal places or too large.
pub fn parse_amount(s: &str) -> (r: Option<Amount>)
    ensures
        r == amount_of_text(s@),
{
    match parse_decimal(s) {
        None => None,
        Some((m, sc)) => {
            if sc <= SCALE {
                let p = pow10_exec(SCALE - sc);
                match m.checked_mul(p) {
                    Some(u) => Some(Amount { units: u }),
                    None => None,
                }
            } else {
                let d = pow10_exec(sc - SCALE);
                proof {
                    lemma_pow10_monotonic(0, (sc - SCALE) as nat);
                }
                let neg = m < 0;
                let mag: u128 = if neg {
                    ((-(m + 1)) as u128) + 1
                } else {
                    m as u128
                };
                let du = d as u128;
                let q = mag / du;
                let rem = mag % du;
                proof {
                    vstd::arithmetic::div_mod::lemma_fundamental_div_mod(mag as int, du as int);
                    assert(0 <= rem < du);
                    assert(q <= mag) by (nonlinear_arith)
                        requires
                            mag == du * q + rem,
                            du >= 1,
                            rem >= 0,
                            q >= 0,
                    ;
                    assert(q * 10 <= mag) by (nonlinear_arith)
                        requires
                            mag == du * q + rem,
                            du >= 10,
                            rem >= 0,
                            q >= 0,
                    ;
                }
                if rem == 0 {
                    let qi = q as i128;
                    let u = if neg { -qi } else { qi };
                    proof {
                        let qq: int = if neg { -(q as int) } else { q as int };
                        assert(m as int == qq * (d as int)) by (nonlinear_arith)
                            requires
                                neg ==> m == -(mag as int),
                                !neg ==> m == mag as int,
                                mag == du * q,
                                du == d,
                                qq == (if neg { -(q as int) } else { q as int }),
                        ;
                        vstd::arithmetic::div_mod::lemma_fundamental_div_mod_converse(
                            m as int,
                            d as int,
                            qq,
                            0,
                        );
                    }
                    Some(Amount { units: u })
                } else {
                    proof {
                        if neg {
                            assert(m as int == (-(q as int) - 1) * (d as int) + (d - rem)) by (
                            nonlinear_arith)
                                requires
                                    m == -(mag as int),
                                    mag == du * q + rem,
                                    du == d,
                            ;
                            vstd::arithmetic::div_mod::lemma_fundamental_div_mod_converse(
                                m as int,
                                d as int,
                                -(q as int) - 1,
                                d - rem,
                            );
                        } else {
                            assert(m as int == (q as int) * (d as int) + rem) by (nonlinear_arith)
                                requires
                                    m == mag as int,
                                    mag == du * q + rem,
                                    du == d,
                            ;
                            vstd::arithmetic::div_mod::lemma_fundamental_div_mod_converse(
                                m as int,
                                d as int,
                                q as int,
                                rem as int,
                            );
                        }
                    }
                    None
                }
            }
        },
    }
}

} // verus!
