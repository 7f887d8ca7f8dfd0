use vstd::prelude::*;

verus! {

use vstd::arithmetic::div_mod::lemma_fundamental_div_mod;
use vstd::math::abs;

/// Ten raised to `e`: the scaling factor between a decimal's integer
/// mantissa and its numeric value.
pub open spec fn pow10(e: nat) -> int
    decreases e,
{
    if e == 0 {
        1
    } else {
        10 * pow10((e - 1) as nat)
    }
}

/// An exact base-10 fixed-point number: `mantissa / 10^scale`.
///
/// Prices and quantities arrive on the wire as decimal strings; this type
/// holds them exactly, never as binary floating point. The field bounds
/// mirror what `rust_decimal::Decimal` guarantees of every value it
/// produces: a 96-bit signed mantissa and a scale of at most 28.
#[derive(Clone, Copy, Debug, PartialEq, Eq, Structural)]
pub struct Dec {
    pub mantissa: i128,
    pub scale: u32,
}

/// Largest mantissa magnitude a well-formed `Dec` may carry: 2^96 - 1.
pub open spec fn max_mantissa() -> int {
    0xFFFF_FFFF_FFFF_FFFF_FFFF_FFFFint
}

/// Largest scale a well-formed `Dec` may carry.
pub open spec fn max_scale() -> nat {
    28
}

/// The zero value's representation.
pub open spec fn dec_zero() -> Dec {
    Dec { mantissa: 0, scale: 0 }
}

impl Dec {
    /// The bounds every value parsed from the wire obeys.
    pub open spec fn wf(self) -> bool {
        &&& self.scale <= max_scale()
        &&& -max_mantissa() <= self.mantissa <= max_mantissa()
    }

    /// The numeric value scaled by 10^28, so that it is an integer:
    /// for the rational `d` this value stands for, `val28 == d * 10^28`.
    /// Two well-formed decimals are numerically equal, or ordered, exactly
    /// as their `val28` images are.
    pub open spec fn val28(self) -> int {
        self.mantissa * pow10((max_scale() - self.scale) as nat)
    }

    /// The zero value.
    pub fn zero() -> (r: Dec)
        ensures
            r.wf(),
            r.val28() == 0,
            r == dec_zero(),
    {
        Dec { mantissa: 0, scale: 0 }
    }

    /// Whether this decimal's numeric value is exactly zero.
    pub fn is_zero(&self) -> (r: bool)
        requires
            self.wf(),
        ensures
            r == (self.val28() == 0),
    {
        proof {
            let t = pow10((max_scale() - self.scale) as nat);
            lemma_pow10_pos((max_scale() - self.scale) as nat);
            assert(self.mantissa * t == 0 <==> self.mantissa == 0) by (nonlinear_arith)
                requires
                    t >= 1,
            ;
        }
        self.mantissa == 0
    }

    /// Strict numeric order: whether `self < other` as numbers.
    pub fn lt(&self, other: &Dec) -> (r: bool)
        requires
            self.wf(),
            other.wf(),
        ensures
            r == (self.val28() < other.val28()),
    {
        proof {
            lemma_val28_sign(*self);
            lemma_val28_sign(*other);
        }
        if self.mantissa < 0 {
            if other.mantissa < 0 {
                mag_lt(other, self)
            } else {
                true
            }
        } else {
            if other.mantissa < 0 {
                false
            } else {
                mag_lt(self, other)
            }
        }
    }

    /// Numeric equality: `100.5` and `100.50` are equal values even though
    /// their representations differ.
    pub fn eq_val(&self, other: &Dec) -> (r: bool)
        requires
            self.wf(),
            other.wf(),
        ensures
            r == (self.val28() == other.val28()),
    {
        !self.lt(other) && !other.lt(self)
    }
}

/// 10^e is at least 1.
pub proof fn lemma_pow10_pos(e: nat)
    ensures
        pow10(e) >= 1,
    decreases e,
{
    if e > 0 {
        lemma_pow10_pos((e - 1) as nat);
    }
}

/// 10^(a+b) == 10^a * 10^b.
pub proof fn lemma_pow10_adds(a: nat, b: nat)
    ensures
        pow10(a + b) == pow10(a) * pow10(b),
    decreases a,
{
    if a == 0 {
    } else {
        lemma_pow10_adds((a - 1) as nat, b);
        assert(10 * (pow10((a - 1) as nat) * pow10(b)) == (10 * pow10((a - 1) as nat)) * pow10(
            b,
        )) by (nonlinear_arith);
    }
}

/// 10^e is monotone in the exponent.
pub proof fn lemma_pow10_increases(a: nat, b: nat)
    requires
        a <= b,
    ensures
        pow10(a) <= pow10(b),
    decreases b,
{
    if a < b {
        lemma_pow10_increases(a, (b - 1) as nat);
        lemma_pow10_pos((b - 1) as nat);
    }
}

/// The concrete value of the full scaling factor 10^28, which fits u128.
pub proof fn lemma_pow10_28()
    ensures
        pow10(max_scale()) == 0x204FCE5E3E25026110000000int,
{
    reveal_with_fuel(pow10, 29);
}

/// The sign of `val28` is the sign of the mantissa, and its magnitude is
/// the mantissa's magnitude times the scaling factor.
pub proof fn lemma_val28_sign(d: Dec)
    requires
        d.wf(),
    ensures
        d.mantissa >= 0 ==> d.val28() == abs(d.mantissa as int) * pow10(
            (max_scale() - d.scale) as nat,
        ) && d.val28() >= 0,
        d.mantissa < 0 ==> d.val28() == -(abs(d.mantissa as int) * pow10(
            (max_scale() - d.scale) as nat,
        )) && d.val28() < 0,
{
    let t = pow10((max_scale() - d.scale) as nat);
    lemma_pow10_pos((max_scale() - d.scale) as nat);
    let m = d.mantissa as int;
    assert(m >= 0 ==> m * t >= 0 && m * t == abs(m) * t) by (nonlinear_arith)
        requires
            t >= 1,
    ;
    assert(m < 0 ==> m * t < 0 && m * t == -(abs(m) * t)) by (nonlinear_arith)
        requires
            t >= 1,
    ;
}

/// Exponentiation by 10, executable, exact for exponents up to the
/// maximum scale.
fn pow10_u128(e: u32) -> (r: u128)
    requires
        e <= max_scale(),
    ensures
        r == pow10(e as nat),
{
    let mut r: u128 = 1;
    let mut i: u32 = 0;
    while i < e
        invariant
            i <= e <= max_scale(),
            r == pow10(i as nat),
        decreases e - i,
    {
        proof {
            lemma_pow10_increases((i + 1) as nat, max_scale());
            lemma_pow10_28();
        }
        r = r * 10;
        i = i + 1;
    }
    r
}

/// Decomposes `|mantissa| * 10^(28 - scale)` as `q * 10^28 + f` with
/// `f < 10^28`: the integer part and the 28-digit fraction part of the
/// number's magnitude, both of which fit machine words.
fn abs_parts(d: &Dec) -> (r: (u128, u128))
    requires
        d.wf(),
    ensures
        r.0 as int * pow10(max_scale()) + r.1 as int == abs(d.mantissa as int) * pow10(
            (max_scale() - d.scale) as nat,
        ),
        r.1 < pow10(max_scale()),
{
    proof {
        lemma_pow10_28();
    }
    let am: u128 = if d.mantissa < 0 {
        (-d.mantissa) as u128
    } else {
        d.mantissa as u128
    };
    let p: u128 = pow10_u128(d.scale);
    let t: u128 = pow10_u128(28 - d.scale);
    proof {
        lemma_pow10_pos(d.scale as nat);
        lemma_pow10_pos((max_scale() - d.scale) as nat);
        lemma_pow10_adds(d.scale as nat, (max_scale() - d.scale) as nat);
    }
    let q: u128 = am / p;
    let rem: u128 = am % p;
    proof {
        lemma_fundamental_div_mod(am as int, p as int);
        assert(rem as int * t as int <= (p as int - 1) * t as int) by (nonlinear_arith)
            requires
                rem as int <= p as int - 1,
                t as int >= 1,
        ;
        assert((p as int - 1) * t as int == p as int * t as int - t as int) by (nonlinear_arith);
        assert(am as int * t as int == q as int * (p as int * t as int) + rem as int * t as int)
            by (nonlinear_arith)
            requires
                am as int == p as int * q as int + rem as int,
        ;
    }
    let f: u128 = rem * t;
    (q, f)
}

/// Compares the magnitudes of two well-formed decimals through their
/// integer/fraction decompositions.
fn mag_lt(a: &Dec, b: &Dec) -> (r: bool)
    requires
        a.wf(),
        b.wf(),
    ensures
        r == (abs(a.mantissa as int) * pow10((max_scale() - a.scale) as nat) < abs(
            b.mantissa as int,
        ) * pow10((max_scale() - b.scale) as nat)),
{
    let (qa, fa) = abs_parts(a);
    let (qb, fb) = abs_parts(b);
    proof {
        lemma_pow10_pos(max_scale());
        lemma_lex_cmp(qa as int, fa as int, qb as int, fb as int, pow10(max_scale()));
    }
    qa < qb || (qa == qb && fa < fb)
}

/// Comparing `q * k + f` pairs with `0 <= f < k` is the lexicographic
/// comparison of `(q, f)`.
proof fn lemma_lex_cmp(qa: int, fa: int, qb: int, fb: int, k: int)
    requires
        0 <= fa < k,
        0 <= fb < k,
        0 <= qa,
        0 <= qb,
    ensures
        (qa * k + fa < qb * k + fb) <==> (qa < qb || (qa == qb && fa < fb)),
{
    if qa < qb {
        assert(qa * k + fa < qb * k + fb) by (nonlinear_arith)
            requires
                qa < qb,
                0 <= fa < k,
                0 <= fb,
        ;
    } else if qb < qa {
        assert(qb * k + fb < qa * k + fa) by (nonlinear_arith)
            requires
                qb < qa,
                0 <= fb < k,
                0 <= fa,
        ;
    }
}

/// What `rust_decimal::Decimal::from_str` parses a given string to, seen
/// through the mantissa/scale pair, or `None` where parsing fails. The
/// result depends on the characters alone.
pub uninterp spec fn dec_of(s: Seq<char>) -> Option<Dec>;

/// Relies on `rust_decimal::Decimal::from_str` to parse a decimal string,
/// and on `Decimal::mantissa` / `Decimal::scale` to read the parsed value
/// back as an integer pair. `rust_decimal` guarantees a 96-bit mantissa
/// and a scale of at most 28, so the result is well-formed.
#[verifier::external_body]
pub fn dec_from_str(s: &str) -> (r: Option<Dec>)
    ensures
        r == dec_of(s@),
        r matches Some(d) ==> d.wf(),
{
    match <rust_decimal::Decimal as core::str::FromStr>::from_str(s) {
        Ok(d) => Some(Dec { mantissa: d.mantissa(), scale: d.scale() }),
        Err(_) => None,
    }
}

} // verus!
