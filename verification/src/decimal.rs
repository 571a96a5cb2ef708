//! Exact decimal numbers, the values of float literals.

use vstd::prelude::*;

verus! {

/// The number `mantissa * 10^exponent`, held in its one canonical form:
/// the mantissa never ends in a zero digit, and zero has exponent zero.
#[derive(Clone, Copy, Debug, PartialEq, Eq, Structural)]
pub struct Decimal {
    mantissa: i64,
    exponent: i32,
}

/// Whether `(mantissa, exponent)` is the canonical way to write its number.
pub open spec fn canonical(mantissa: int, exponent: int) -> bool {
    if mantissa == 0 {
        exponent == 0
    } else {
        mantissa % 10 != 0
    }
}

/// `magnitude * 10^exponent` with the trailing zero digits of the
/// magnitude moved into the exponent.
pub open spec fn normal_form(magnitude: nat, exponent: int) -> (nat, int)
    decreases magnitude,
{
    if magnitude == 0 {
        (0, 0)
    } else if magnitude % 10 == 0 {
        normal_form(magnitude / 10, exponent + 1)
    } else {
        (magnitude, exponent)
    }
}

/// Ten to the power of `n`.
pub open spec fn pow10(n: nat) -> nat
    decreases n,
{
    if n == 0 {
        1
    } else {
        10 * pow10((n - 1) as nat)
    }
}

/// The normal form writes the same number, and writes it canonically:
/// the exponent has grown by as many as the magnitude has lost zero
/// digits.
pub proof fn lemma_normal_form_is_exact(magnitude: nat, exponent: int)
    ensures
        canonical(normal_form(magnitude, exponent).0 as int, normal_form(magnitude, exponent).1),
        magnitude > 0 ==> normal_form(magnitude, exponent).1 >= exponent,
        magnitude > 0 ==> normal_form(magnitude, exponent).0 * pow10(
            (normal_form(magnitude, exponent).1 - exponent) as nat,
        ) == magnitude,
    decreases magnitude,
{
    if magnitude != 0 && magnitude % 10 == 0 {
        lemma_normal_form_is_exact(magnitude / 10, exponent + 1);
        let (m, e) = normal_form(magnitude / 10, exponent + 1);
        let k = (e - exponent - 1) as nat;
        assert(pow10((e - exponent) as nat) == 10 * pow10(k));
        assert(m * (10 * pow10(k)) == 10 * (m * pow10(k))) by (nonlinear_arith);
        assert(m * pow10(k) == magnitude / 10);
        assert(m * pow10((e - exponent) as nat) == magnitude);
    } else if magnitude != 0 {
        assert(pow10(0) == 1);
        assert(magnitude * pow10(0) == magnitude);
    }
}

/// The canonical mantissa and exponent of the number
/// `(-1)^negative * magnitude * 10^exponent`, where they fit the
/// mantissa's 64 and the exponent's 32 bits.
pub open spec fn decimal_parts(negative: bool, magnitude: nat, exponent: int) -> Option<(int, int)> {
    let (m, e) = normal_form(magnitude, exponent);
    let signed = if negative {
        -(m as int)
    } else {
        m as int
    };
    if i64::MIN <= signed <= i64::MAX && i32::MIN <= e <= i32::MAX {
        Some((signed, e))
    } else {
        None
    }
}

/// The magnitude of a mathematical integer.
pub open spec fn magnitude_of(n: int) -> nat {
    if n < 0 {
        (-n) as nat
    } else {
        n as nat
    }
}

impl Decimal {
    #[verifier::type_invariant]
    spec fn well_formed(self) -> bool {
        canonical(self.mantissa as int, self.exponent as int)
    }

    /// The mantissa, as a mathematical integer.
    pub closed spec fn spec_mantissa(self) -> int {
        self.mantissa as int
    }

    /// The power of ten, as a mathematical integer.
    pub closed spec fn spec_exponent(self) -> int {
        self.exponent as int
    }

    /// The mantissa.
    pub fn mantissa(&self) -> (m: i64)
        ensures
            m == self.spec_mantissa(),
            canonical(self.spec_mantissa(), self.spec_exponent()),
    {
        proof {
            use_type_invariant(self);
        }
        self.mantissa
    }

    /// The power of ten.
    pub fn exponent(&self) -> (e: i32)
        ensures
            e == self.spec_exponent(),
            canonical(self.spec_mantissa(), self.spec_exponent()),
    {
        proof {
            use_type_invariant(self);
        }
        self.exponent
    }

    /// Two decimals are the same value exactly when their parts agree.
    pub proof fn lemma_parts_decide(self, other: Decimal)
        ensures
            (self == other) <==> (self.spec_mantissa() == other.spec_mantissa()
                && self.spec_exponent() == other.spec_exponent()),
    {
    }

    /// The decimal `(-1)^negative * magnitude * 10^exponent`, or nothing
    /// where its canonical form does not fit.
    pub(crate) fn from_parts(negative: bool, magnitude: u128, exponent: i128) -> (r: Option<
        Decimal,
    >)
        requires
            magnitude <= 0x1_0000_0000_0000_0000_0000_0000,
            -0x1_0000_0000_0000_0000_0000_0000 <= exponent <= 0x1_0000_0000_0000_0000_0000_0000,
        ensures
            match r {
                Some(d) => decimal_parts(negative, magnitude as nat, exponent as int) == Some(
                    (d.spec_mantissa(), d.spec_exponent()),
                ),
                None => decimal_parts(negative, magnitude as nat, exponent as int) is None,
            },
    {
        let mut m: u128 = magnitude;
        let mut e: i128 = exponent;
        if m == 0 {
            return Some(Decimal { mantissa: 0, exponent: 0 });
        }
        while m % 10 == 0
            invariant
                0 < m <= magnitude,
                e - exponent <= magnitude - m,
                exponent <= e,
                magnitude <= 0x1_0000_0000_0000_0000_0000_0000,
                exponent <= 0x1_0000_0000_0000_0000_0000_0000,
                normal_form(m as nat, e as int) == normal_form(magnitude as nat, exponent as int),
            decreases m,
        {
            m = m / 10;
            e = e + 1;
        }
        if e < -2147483648 || e > 2147483647 {
            return None;
        }
        if negative {
            if m > 0x8000_0000_0000_0000 {
                return None;
            }
            let signed: i128 = -(m as i128);
            Some(Decimal { mantissa: signed as i64, exponent: e as i32 })
        } else {
            if m > 0x7fff_ffff_ffff_ffff {
                return None;
            }
            Some(Decimal { mantissa: m as i64, exponent: e as i32 })
        }
    }

    /// The decimal `mantissa * 10^exponent`, or nothing where the
    /// exponent of its canonical form does not fit.
    pub fn new(mantissa: i64, exponent: i32) -> (r: Option<Decimal>)
        ensures
            match r {
                Some(d) => decimal_parts(
                    mantissa < 0,
                    magnitude_of(mantissa as int),
                    exponent as int,
                ) == Some((d.spec_mantissa(), d.spec_exponent())),
                None => decimal_parts(mantissa < 0, magnitude_of(mantissa as int), exponent as int)
                    is None,
            },
    {
        let wide: i128 = mantissa as i128;
        let magnitude: u128 = if mantissa < 0 {
            (-wide) as u128
        } else {
            wide as u128
        };
        Decimal::from_parts(mantissa < 0, magnitude, exponent as i128)
    }

    /// This decimal times `factor * 10^shift`, or nothing where the
    /// canonical form of the product does not fit.
    pub fn scaled(&self, factor: u32, shift: i32) -> (r: Option<Decimal>)
        ensures
            match r {
                Some(d) => decimal_parts(
                    self.spec_mantissa() < 0,
                    magnitude_of(self.spec_mantissa()) * (factor as nat),
                    self.spec_exponent() + shift,
                ) == Some((d.spec_mantissa(), d.spec_exponent())),
                None => decimal_parts(
                    self.spec_mantissa() < 0,
                    magnitude_of(self.spec_mantissa()) * (factor as nat),
                    self.spec_exponent() + shift,
                ) is None,
            },
    {
        let wide: i128 = self.mantissa as i128;
        let magnitude: u128 = if self.mantissa < 0 {
            (-wide) as u128
        } else {
            wide as u128
        };
        assert(magnitude * factor <= 0x8000_0000_0000_0000 * 0x1_0000_0000) by (nonlinear_arith)
            requires
                magnitude <= 0x8000_0000_0000_0000,
                factor < 0x1_0000_0000,
        ;
        Decimal::from_parts(
            self.mantissa < 0,
            magnitude * (factor as u128),
            self.exponent as i128 + shift as i128,
        )
    }
}

} // verus!
