//! Exact decimal amounts.
//!
//! `Dec` holds a decimal number `mantissa / 10^scale` as plain integers, with the
//! bounds of `rust_decimal::Decimal` (a 96-bit mantissa and a scale of at most 28).
//! All arithmetic is delegated to `rust_decimal`; the contracts below state what
//! its source guarantees.
use vstd::prelude::*;

verus! {

/// The absolute value of an integer.
pub open spec fn iabs(x: int) -> int {
    if x < 0 {
        -x
    } else {
        x
    }
}

/// `10^n`.
pub open spec fn pow10(n: nat) -> int
    decreases n,
{
    if n == 0 {
        1
    } else {
        10 * pow10((n - 1) as nat)
    }
}

/// The largest mantissa magnitude that a `rust_decimal::Decimal` holds (`2^96 - 1`).
pub open spec fn max_mantissa() -> int {
    0xFFFF_FFFF_FFFF_FFFF_FFFF_FFFFint
}

/// `10^28`: the value 1 expressed in units.
pub open spec fn one_units() -> int {
    10_000_000_000_000_000_000_000_000_000int
}

/// The largest value magnitude expressed in units.
pub open spec fn max_units() -> int {
    max_mantissa() * one_units()
}

/// The value of the plain pair `(mantissa, scale)` times `10^28`.
pub open spec fn units_of(v: (int, nat)) -> int {
    v.0 * pow10((28 - v.1) as nat)
}

/// The value of an optional decimal.
pub open spec fn opt_view(d: Option<Dec>) -> Option<(int, nat)> {
    match d {
        Some(v) => Some(v@),
        None => None,
    }
}

/// What `rust_decimal` computes for `a + b`.
pub uninterp spec fn decimal_sum(a: (int, nat), b: (int, nat)) -> (int, nat);

/// What `rust_decimal` computes for `a - b`.
pub uninterp spec fn decimal_difference(a: (int, nat), b: (int, nat)) -> (int, nat);

/// What `rust_decimal` computes for `a * b`.
pub uninterp spec fn decimal_product(a: (int, nat), b: (int, nat)) -> (int, nat);

/// What `rust_decimal` computes for `a / b`.
pub uninterp spec fn decimal_quotient(a: (int, nat), b: (int, nat)) -> (int, nat);

/// What `rust_decimal` computes for `a.round_dp(dp)`.
pub uninterp spec fn decimal_round_dp(a: (int, nat), dp: nat) -> (int, nat);

/// What `rust_decimal` prints for a decimal (its `Display`).
pub uninterp spec fn decimal_text(a: (int, nat)) -> Seq<char>;

/// What `rust_decimal` prints for a decimal formatted with a precision of
/// `places` decimal places (`format!("{:.2}", d)` for two).
pub uninterp spec fn decimal_text_fixed(a: (int, nat), places: nat) -> Seq<char>;

/// A decimal number `mantissa / 10^scale`.
#[derive(Clone, Copy, Debug)]
pub struct Dec {
    mantissa: i128,
    scale: u32,
}

impl View for Dec {
    type V = (int, nat);

    closed spec fn view(&self) -> (int, nat) {
        (self.mantissa as int, self.scale as nat)
    }
}

impl Dec {
    #[verifier::type_invariant]
    spec fn inv(self) -> bool {
        &&& self.scale <= 28
        &&& -max_mantissa() <= self.mantissa <= max_mantissa()
    }

    /// The decimal with mantissa `mantissa` and scale `scale` (meaningful within the
    /// decimal bounds).
    pub closed spec fn from_view(v: (int, nat)) -> Dec {
        Dec { mantissa: v.0 as i128, scale: v.1 as u32 }
    }

    /// Within the bounds, `from_view` gives the decimal of that view.
    pub proof fn lemma_from_view(v: (int, nat))
        requires
            v.1 <= 28,
            -max_mantissa() <= v.0 <= max_mantissa(),
        ensures
            Dec::from_view(v)@ == v,
    {
    }

    /// A decimal is the one `from_view` gives for its view.
    pub proof fn lemma_from_own_view(d: Dec)
        ensures
            Dec::from_view(d@) == d,
    {
    }

    /// A decimal is determined by its view.
    pub proof fn lemma_view_determines(a: Dec, b: Dec)
        ensures
            a@ == b@ ==> a == b,
    {
    }

    /// The number's value times `10^28` (an exact integer, since the scale is at most 28).
    pub open spec fn units(self) -> int {
        units_of(self@)
    }

    /// The number `num / 10^scale` (as `Decimal::new`).
    pub fn new(num: i64, scale: u32) -> (r: Dec)
        requires
            scale <= 28,
        ensures
            r@ == (num as int, scale as nat),
    {
        Dec { mantissa: num as i128, scale }
    }

    /// The integer `n` (scale 0).
    pub fn from_int(n: i64) -> (r: Dec)
        ensures
            r@ == (n as int, 0nat),
            r.units() == n * one_units(),
    {
        proof {
            lemma_pow10_28();
        }
        Dec { mantissa: n as i128, scale: 0 }
    }

    /// The number `mantissa / 10^scale`, when the parts are within the decimal
    /// bounds (a scale of at most 28 and a mantissa below `2^96` in magnitude).
    pub fn from_parts(mantissa: i128, scale: u32) -> (r: Option<Dec>)
        ensures
            r is Some <==> (scale <= 28 && -max_mantissa() <= mantissa <= max_mantissa()),
            r matches Some(d) ==> d@ == (mantissa as int, scale as nat),
    {
        let bound: i128 = 0xFFFF_FFFF_FFFF_FFFF_FFFF_FFFF;
        if scale <= 28 && -bound <= mantissa && mantissa <= bound {
            Some(Dec { mantissa, scale })
        } else {
            None
        }
    }

    /// The whole number `n` (scale 0).
    pub fn from_u64(n: u64) -> (r: Dec)
        ensures
            r@ == (n as int, 0nat),
            r.units() == n * one_units(),
    {
        proof {
            lemma_pow10_28();
        }
        Dec { mantissa: n as i128, scale: 0 }
    }

    /// Zero.
    pub fn zero() -> (r: Dec)
        ensures
            r@ == (0int, 0nat),
            r.units() == 0,
    {
        Dec { mantissa: 0, scale: 0 }
    }

    pub fn mantissa(&self) -> (r: i128)
        ensures
            r == self@.0,
    {
        self.mantissa
    }

    pub fn scale(&self) -> (r: u32)
        ensures
            r == self@.1,
    {
        self.scale
    }

    pub fn is_zero(&self) -> (r: bool)
        ensures
            r == (self.units() == 0),
    {
        proof {
            lemma_pow10_positive((28 - self.scale) as nat);
            lemma_mul_zero_iff(self.mantissa as int, pow10((28 - self.scale) as nat));
        }
        self.mantissa == 0
    }

    /// The absolute value (same scale).
    pub fn abs(&self) -> (r: Dec)
        ensures
            r@ == ((if self@.0 < 0 { -self@.0 } else { self@.0 }), self@.1),
            r.units() == (if self.units() < 0 { -self.units() } else { self.units() }),
    {
        proof {
            use_type_invariant(self);
            lemma_pow10_positive((28 - self.scale) as nat);
            lemma_mul_sign(self.mantissa as int, pow10((28 - self.scale) as nat));
        }
        if self.mantissa < 0 {
            Dec { mantissa: -self.mantissa, scale: self.scale }
        } else {
            *self
        }
    }
}

/// Whether the integer `u` (in units) is a value that a decimal of scale `s`
/// holds exactly.
pub open spec fn fits_at_scale(u: int, s: nat) -> bool {
    -max_mantissa() * pow10((28 - s) as nat) <= u <= max_mantissa() * pow10((28 - s) as nat)
}

/// The larger of two scales.
pub open spec fn max_scale(a: nat, b: nat) -> nat {
    if a >= b {
        a
    } else {
        b
    }
}

/// `rust_decimal`'s `Decimal + Decimal`: exact whenever the exact sum fits at the
/// larger of the two scales, otherwise rounded to the nearest value at a smaller
/// scale (an error below one); it does not overflow when the exact sum is within the
/// decimal range.
#[verifier::external_body]
fn decimal_add(a: Dec, b: Dec) -> (r: Dec)
    requires
        -max_units() <= a.units() + b.units() <= max_units(),
    ensures
        r@ == decimal_sum(a@, b@),
        fits_at_scale(a.units() + b.units(), max_scale(a@.1, b@.1)) ==> r.units() == a.units()
            + b.units(),
        a.units() + b.units() - one_units() <= r.units() <= a.units() + b.units() + one_units(),
{
    let x = rust_decimal::Decimal::from_i128_with_scale(a.mantissa, a.scale)
        + rust_decimal::Decimal::from_i128_with_scale(b.mantissa, b.scale);
    Dec { mantissa: x.mantissa(), scale: x.scale() }
}

/// `rust_decimal`'s `Decimal - Decimal`: exact whenever the exact difference fits at
/// the larger of the two scales, otherwise rounded to the nearest value at a smaller
/// scale (an error below one); it does not overflow when the exact difference is
/// within the decimal range.
#[verifier::external_body]
fn decimal_sub(a: Dec, b: Dec) -> (r: Dec)
    requires
        -max_units() <= a.units() - b.units() <= max_units(),
    ensures
        r@ == decimal_difference(a@, b@),
        fits_at_scale(a.units() - b.units(), max_scale(a@.1, b@.1)) ==> r.units() == a.units()
            - b.units(),
        a.units() - b.units() - one_units() <= r.units() <= a.units() - b.units() + one_units(),
{
    let x = rust_decimal::Decimal::from_i128_with_scale(a.mantissa, a.scale)
        - rust_decimal::Decimal::from_i128_with_scale(b.mantissa, b.scale);
    Dec { mantissa: x.mantissa(), scale: x.scale() }
}

/// `rust_decimal`'s `Decimal * Decimal`: zero at scale 0 when either factor is zero;
/// otherwise exact when the scales add up to at most 28 and the product of the
/// mantissas fits in 96 bits, else rounded at a smaller scale (an error below one);
/// it does not overflow when the exact product is within the decimal range.
#[verifier::external_body]
fn decimal_mul(a: Dec, b: Dec) -> (r: Dec)
    requires
        -max_units() * one_units() <= a.units() * b.units() <= max_units() * one_units(),
    ensures
        r@ == decimal_product(a@, b@),
        (a.units() == 0 || b.units() == 0) ==> r.units() == 0,
        a.units() * b.units() - one_units() * one_units() <= r.units() * one_units() <= a.units()
            * b.units() + one_units() * one_units(),
        (a@.0 == 0 || b@.0 == 0) ==> r@ == (0int, 0nat),
        (a@.0 != 0 && b@.0 != 0 && a@.1 + b@.1 <= 28 && -max_mantissa() <= a@.0 * b@.0
            <= max_mantissa()) ==> r@ == (a@.0 * b@.0, a@.1 + b@.1),
{
    let x = rust_decimal::Decimal::from_i128_with_scale(a.mantissa, a.scale)
        * rust_decimal::Decimal::from_i128_with_scale(b.mantissa, b.scale);
    Dec { mantissa: x.mantissa(), scale: x.scale() }
}

/// `rust_decimal`'s `Decimal / Decimal` for a non-zero divisor whose exact quotient
/// is within the decimal range: the result is rounded at a scale of at least zero,
/// so it lies within one of the exact quotient.
#[verifier::external_body]
fn decimal_div(a: Dec, b: Dec) -> (r: Dec)
    requires
        b.units() != 0,
        -max_units() * (if b.units() < 0 { -b.units() } else { b.units() }) <= a.units()
            * one_units() <= max_units() * (if b.units() < 0 { -b.units() } else { b.units() }),
    ensures
        r@ == decimal_quotient(a@, b@),
        a.units() == 0 ==> r.units() == 0,
        iabs(r.units() * b.units() - a.units() * one_units()) <= one_units() * iabs(b.units()),
{
    let x = rust_decimal::Decimal::from_i128_with_scale(a.mantissa, a.scale)
        / rust_decimal::Decimal::from_i128_with_scale(b.mantissa, b.scale);
    Dec { mantissa: x.mantissa(), scale: x.scale() }
}

/// `rust_decimal`'s `Decimal::round_dp` (banker's rounding to `dp` decimal places);
/// a number with at most `dp` decimal places is returned unchanged.
#[verifier::external_body]
fn decimal_round(a: Dec, dp: u32) -> (r: Dec)
    ensures
        r@ == decimal_round_dp(a@, dp as nat),
        a@.1 <= dp ==> r@ == a@,
{
    let x = rust_decimal::Decimal::from_i128_with_scale(a.mantissa, a.scale).round_dp(dp);
    Dec { mantissa: x.mantissa(), scale: x.scale() }
}

/// `rust_decimal`'s `Ord::cmp` for decimals: it compares the numeric values
/// (-1, 0 or 1 for less, equal, greater).
#[verifier::external_body]
fn decimal_compare(a: Dec, b: Dec) -> (r: i8)
    ensures
        r == (if a.units() < b.units() {
            -1i8
        } else if a.units() == b.units() {
            0i8
        } else {
            1i8
        }),
{
    match rust_decimal::Decimal::from_i128_with_scale(a.mantissa, a.scale).cmp(
        &rust_decimal::Decimal::from_i128_with_scale(b.mantissa, b.scale),
    ) {
        std::cmp::Ordering::Less => -1,
        std::cmp::Ordering::Equal => 0,
        std::cmp::Ordering::Greater => 1,
    }
}

/// `rust_decimal`'s `Display` for decimals; it depends on the mantissa and scale
/// only.
#[verifier::external_body]
fn decimal_display(a: Dec) -> (r: String)
    ensures
        r@ == decimal_text(a@),
{
    rust_decimal::Decimal::from_i128_with_scale(a.mantissa, a.scale).to_string()
}

/// `rust_decimal`'s `Display` with a precision (`format!("{:.*}", places, d)`);
/// it depends on the mantissa, the scale and the precision only.
#[verifier::external_body]
fn decimal_display_fixed(a: Dec, places: usize) -> (r: String)
    ensures
        r@ == decimal_text_fixed(a@, places as nat),
{
    format!("{:.*}", places, rust_decimal::Decimal::from_i128_with_scale(a.mantissa, a.scale))
}

/// What `rust_decimal` parses from a text (`Decimal::from_str`), if anything.
pub uninterp spec fn parsed_decimal(text: Seq<char>) -> Option<(int, nat)>;

/// `rust_decimal`'s `Decimal::from_str`: the decimal a text denotes, or `None`
/// when it denotes none.
#[verifier::external_body]
pub(crate) fn parse_decimal(text: &str) -> (r: Option<Dec>)
    ensures
        r is Some <==> parsed_decimal(text@) is Some,
        r matches Some(d) ==> Some(d@) == parsed_decimal(text@),
{
    match <rust_decimal::Decimal as std::str::FromStr>::from_str(text) {
        Ok(d) => Some(Dec { mantissa: d.mantissa(), scale: d.scale() }),
        Err(_) => None,
    }
}

impl Dec {
    /// Every decimal lies within the decimal range (a fact for proofs; it does
    /// nothing at run time).
    pub fn in_range(&self)
        ensures
            within(*self, max_mantissa()),
            -max_units() <= self.units() <= max_units(),
    {
        proof {
            use_type_invariant(self);
            lemma_pow10_positive((28 - self.scale) as nat);
            lemma_pow10_le_28((28 - self.scale) as nat);
            let m = self.mantissa as int;
            let p = pow10((28 - self.scale) as nat);
            assert(iabs(m * p) <= max_mantissa() * one_units()) by (nonlinear_arith)
                requires
                    -max_mantissa() <= m <= max_mantissa(),
                    1 <= p <= one_units(),
            ;
        }
    }

    /// The decimal as text, as `rust_decimal` prints it.
    pub fn to_string(&self) -> (r: String)
        ensures
            r@ == decimal_text(self@),
    {
        decimal_display(*self)
    }

    /// The decimal as text with `places` decimal places, as `rust_decimal`
    /// prints it.
    pub fn to_string_fixed(&self, places: usize) -> (r: String)
        ensures
            r@ == decimal_text_fixed(self@, places as nat),
    {
        decimal_display_fixed(*self, places)
    }

    pub fn add(&self, other: &Dec) -> (r: Dec)
        requires
            -max_units() <= self.units() + other.units() <= max_units(),
        ensures
            r@ == decimal_sum(self@, other@),
            fits_at_scale(self.units() + other.units(), max_scale(self@.1, other@.1))
                ==> r.units() == self.units() + other.units(),
            self.units() + other.units() - one_units() <= r.units() <= self.units()
                + other.units() + one_units(),
    {
        decimal_add(*self, *other)
    }

    pub fn sub(&self, other: &Dec) -> (r: Dec)
        requires
            -max_units() <= self.units() - other.units() <= max_units(),
        ensures
            r@ == decimal_difference(self@, other@),
            fits_at_scale(self.units() - other.units(), max_scale(self@.1, other@.1))
                ==> r.units() == self.units() - other.units(),
            self.units() - other.units() - one_units() <= r.units() <= self.units()
                - other.units() + one_units(),
    {
        decimal_sub(*self, *other)
    }

    pub fn mul(&self, other: &Dec) -> (r: Dec)
        requires
            -max_units() * one_units() <= self.units() * other.units() <= max_units()
                * one_units(),
        ensures
            r@ == decimal_product(self@, other@),
            (self.units() == 0 || other.units() == 0) ==> r.units() == 0,
            self.units() * other.units() - one_units() * one_units() <= r.units() * one_units()
                <= self.units() * other.units() + one_units() * one_units(),
            (self@.0 == 0 || other@.0 == 0) ==> r@ == (0int, 0nat),
            (self@.0 != 0 && other@.0 != 0 && self@.1 + other@.1 <= 28 && -max_mantissa()
                <= self@.0 * other@.0 <= max_mantissa()) ==> r@ == (
                self@.0 * other@.0,
                self@.1 + other@.1,
            ),
    {
        decimal_mul(*self, *other)
    }

    pub fn div(&self, other: &Dec) -> (r: Dec)
        requires
            other.units() != 0,
            -max_units() * (if other.units() < 0 { -other.units() } else { other.units() })
                <= self.units() * one_units() <= max_units() * (if other.units() < 0 {
                -other.units()
            } else {
                other.units()
            }),
        ensures
            r@ == decimal_quotient(self@, other@),
            self.units() == 0 ==> r.units() == 0,
            iabs(r.units() * other.units() - self.units() * one_units()) <= one_units() * iabs(
                other.units(),
            ),
    {
        decimal_div(*self, *other)
    }

    pub fn round_dp(&self, dp: u32) -> (r: Dec)
        ensures
            r@ == decimal_round_dp(self@, dp as nat),
            self@.1 <= dp ==> r@ == self@,
    {
        decimal_round(*self, dp)
    }

    pub fn lt(&self, other: &Dec) -> (r: bool)
        ensures
            r == (self.units() < other.units()),
    {
        decimal_compare(*self, *other) < 0
    }

    pub fn le(&self, other: &Dec) -> (r: bool)
        ensures
            r == (self.units() <= other.units()),
    {
        decimal_compare(*self, *other) <= 0
    }

    pub fn gt(&self, other: &Dec) -> (r: bool)
        ensures
            r == (self.units() > other.units()),
    {
        decimal_compare(*self, *other) > 0
    }

    pub fn ge(&self, other: &Dec) -> (r: bool)
        ensures
            r == (self.units() >= other.units()),
    {
        decimal_compare(*self, *other) >= 0
    }

    /// Numeric equality (`1.0 == 1.00`).
    pub fn num_eq(&self, other: &Dec) -> (r: bool)
        ensures
            r == (self.units() == other.units()),
    {
        decimal_compare(*self, *other) == 0
    }

    /// The larger value (`other` when they are numerically equal, as `Ord::max`).
    pub fn max(&self, other: &Dec) -> (r: Dec)
        ensures
            r == (if self.units() > other.units() { *self } else { *other }),
    {
        if self.gt(other) {
            *self
        } else {
            *other
        }
    }

    /// The smaller value (`self` when they are numerically equal, as `Ord::min`).
    pub fn min(&self, other: &Dec) -> (r: Dec)
        ensures
            r == (if other.units() < self.units() { *other } else { *self }),
    {
        if other.lt(self) {
            *other
        } else {
            *self
        }
    }
}

impl PartialEq for Dec {
    fn eq(&self, other: &Dec) -> (r: bool) {
        self.num_eq(other)
    }
}

impl vstd::std_specs::cmp::PartialEqSpecImpl for Dec {
    open spec fn obeys_eq_spec() -> bool {
        true
    }

    open spec fn eq_spec(&self, other: &Dec) -> bool {
        self.units() == other.units()
    }
}

/// `10^28` is the value 1 in units.
pub(crate) proof fn lemma_pow10_28()
    ensures
        pow10(28) == one_units(),
{
    reveal_with_fuel(pow10, 29);
}

proof fn lemma_pow10_le_28(n: nat)
    requires
        n <= 28,
    ensures
        pow10(n) <= one_units(),
    decreases 28 - n,
{
    if n < 28 {
        lemma_pow10_le_28(n + 1);
        lemma_pow10_positive(n);
        assert(pow10(n + 1) == 10 * pow10(n));
    } else {
        lemma_pow10_28();
    }
}

pub(crate) proof fn lemma_pow10_positive(n: nat)
    ensures
        pow10(n) >= 1,
    decreases n,
{
    if n > 0 {
        lemma_pow10_positive((n - 1) as nat);
    }
}

proof fn lemma_mul_zero_iff(a: int, b: int)
    requires
        b >= 1,
    ensures
        (a * b == 0) == (a == 0),
{
    if a != 0 {
        assert(a * b != 0) by (nonlinear_arith)
            requires
                a != 0,
                b >= 1,
        ;
    }
}

proof fn lemma_mul_sign(a: int, b: int)
    ensures
        (-a) * b == -(a * b),
        b >= 1 ==> ((a * b < 0) == (a < 0)),
{
    assert((-a) * b == -(a * b)) by (nonlinear_arith);
    if b >= 1 {
        assert((a * b < 0) == (a < 0)) by (nonlinear_arith)
            requires
                b >= 1,
        ;
    }
}

/// `|d| <= k` for a whole number `k`.
pub open spec fn within(d: Dec, k: int) -> bool {
    iabs(d.units()) <= k * one_units()
}

proof fn lemma_pow10_add(a: nat, b: nat)
    ensures
        pow10(a) * pow10(b) == pow10(a + b),
    decreases a,
{
    if a > 0 {
        lemma_pow10_add((a - 1) as nat, b);
        let pa = pow10((a - 1) as nat);
        let pb = pow10(b);
        assert(pow10(a) == 10 * pa);
        assert(pow10(a + b) == 10 * pow10((a - 1 + b) as nat));
        assert((10 * pa) * pb == 10 * (pa * pb)) by (nonlinear_arith);
    }
}

/// `10^n` for a scale `n` of at most 28.
fn pow10_exec(n: u32) -> (r: u128)
    requires
        n <= 28,
    ensures
        r == pow10(n as nat),
{
    let mut r: u128 = 1;
    let mut i: u32 = 0;
    while i < n
        invariant
            i <= n <= 28,
            r == pow10(i as nat),
        decreases n - i,
    {
        proof {
            lemma_pow10_le_28((i + 1) as nat);
            assert(pow10((i + 1) as nat) == 10 * pow10(i as nat));
        }
        r = r * 10;
        i = i + 1;
    }
    r
}

/// The magnitude of a decimal in units, as whole units of one and the rest.
fn split_units(d: Dec) -> (r: (u128, u128))
    ensures
        iabs(d.units()) == r.0 * one_units() + r.1,
        r.1 < one_units(),
        r.0 <= max_mantissa(),
{
    proof {
        use_type_invariant(d);
        lemma_pow10_28();
        lemma_pow10_positive(d.scale as nat);
        lemma_pow10_positive((28 - d.scale) as nat);
        lemma_pow10_add(d.scale as nat, (28 - d.scale) as nat);
        lemma_pow10_le_28(d.scale as nat);
        lemma_pow10_le_28((28 - d.scale) as nat);
    }
    let mag: u128 = if d.mantissa < 0 {
        (-d.mantissa) as u128
    } else {
        d.mantissa as u128
    };
    let p = pow10_exec(d.scale);
    let q = pow10_exec(28 - d.scale);
    let w = mag / p;
    let f = mag % p;
    proof {
        vstd::arithmetic::div_mod::lemma_fundamental_div_mod(mag as int, p as int);
        vstd::arithmetic::div_mod::lemma_mod_pos_bound(mag as int, p as int);
        let m = d.mantissa as int;
        assert(iabs(d.units()) == mag * q) by (nonlinear_arith)
            requires
                d.units() == m * q,
                mag == iabs(m),
                q >= 1,
        ;
        assert(mag * q == w * (p * q) + f * q) by (nonlinear_arith)
            requires
                mag == p * w + f,
        ;
        assert(f * q < p * q) by (nonlinear_arith)
            requires
                f < p,
                q >= 1,
        ;
        assert(w <= mag) by (nonlinear_arith)
            requires
                mag == p * w + f,
                p >= 1,
                f >= 0,
                w >= 0,
        ;
    }
    (w, f * q)
}

/// Whether the exact sum of two decimals lies within the decimal range (the
/// condition under which `add` is defined).
pub fn sum_in_range(a: Dec, b: Dec) -> (r: bool)
    ensures
        r == (-max_units() <= a.units() + b.units() <= max_units()),
{
    proof {
        use_type_invariant(a);
        use_type_invariant(b);
    }
    a.in_range();
    b.in_range();
    if a.mantissa == 0 || b.mantissa == 0 || (a.mantissa < 0) != (b.mantissa < 0) {
        proof {
            lemma_pow10_positive((28 - a.scale) as nat);
            lemma_pow10_positive((28 - b.scale) as nat);
            let pa = pow10((28 - a.scale) as nat);
            let pb = pow10((28 - b.scale) as nat);
            let ma = a.mantissa as int;
            let mb = b.mantissa as int;
            assert(a.units() == ma * pa);
            assert(b.units() == mb * pb);
            if ma == 0 {
                assert(ma * pa == 0) by (nonlinear_arith)
                    requires
                        ma == 0,
                ;
            } else if mb == 0 {
                assert(mb * pb == 0) by (nonlinear_arith)
                    requires
                        mb == 0,
                ;
            } else if ma < 0 {
                assert(ma * pa < 0 && mb * pb > 0) by (nonlinear_arith)
                    requires
                        ma < 0,
                        mb > 0,
                        pa >= 1,
                        pb >= 1,
                ;
            } else {
                assert(ma * pa > 0 && mb * pb < 0) by (nonlinear_arith)
                    requires
                        ma > 0,
                        mb < 0,
                        pa >= 1,
                        pb >= 1,
                ;
            }
        }
        return true;
    }
    let (wa, fa) = split_units(a);
    let (wb, fb) = split_units(b);
    proof {
        lemma_pow10_positive((28 - a.scale) as nat);
        lemma_pow10_positive((28 - b.scale) as nat);
        let pa = pow10((28 - a.scale) as nat);
        let pb = pow10((28 - b.scale) as nat);
        let ma = a.mantissa as int;
        let mb = b.mantissa as int;
        if ma > 0 {
            assert(ma * pa > 0 && mb * pb > 0) by (nonlinear_arith)
                requires
                    ma > 0,
                    mb > 0,
                    pa >= 1,
                    pb >= 1,
            ;
        } else {
            assert(ma * pa < 0 && mb * pb < 0) by (nonlinear_arith)
                requires
                    ma < 0,
                    mb < 0,
                    pa >= 1,
                    pb >= 1,
            ;
        }
        assert(iabs(a.units() + b.units()) == iabs(a.units()) + iabs(b.units()));
    }
    let w = wa + wb;
    let f = fa + fb;
    let m: u128 = 0xFFFF_FFFF_FFFF_FFFF_FFFF_FFFF;
    let one: u128 = 10_000_000_000_000_000_000_000_000_000;
    let ok = if w > m {
        false
    } else if w == m {
        f == 0
    } else if w == m - 1 {
        f <= one
    } else {
        true
    };
    proof {
        let o = one_units();
        let t = iabs(a.units() + b.units());
        assert(t == w * o + f);
        assert(max_units() == m * o);
        assert(ok == (t <= m * o)) by (nonlinear_arith)
            requires
                t == w * o + f,
                0 <= f < 2 * o,
                o > 0,
                ok == (if w > m {
                    false
                } else if w == m {
                    f == 0
                } else if w == m - 1 {
                    f <= o
                } else {
                    true
                }),
        ;
    }
    ok
}

} // verus!
