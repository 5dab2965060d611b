//! Money amounts, held as the parts of a `rust_decimal::Decimal`.

use rust_decimal::Decimal;
use vstd::prelude::*;
use vstd::std_specs::cmp::PartialEqSpecImpl;

verus! {

/// Largest magnitude of a mantissa that a `Decimal` can hold (96 bits).
pub const MAX_MANTISSA: i128 = 0xFFFF_FFFF_FFFF_FFFF_FFFF_FFFFi128;

/// Largest scale (number of decimal places) that a `Decimal` can hold.
pub const MAX_SCALE: u32 = 28;

#[verifier::external_type_specification]
#[verifier::external_body]
pub struct ExDecimal(Decimal);

/// What `Decimal::checked_add` returns on the decimals with the given parts,
/// itself taken as its parts (`None` on overflow).
pub uninterp spec fn decimal_checked_add(
    a_mantissa: i128,
    a_scale: u32,
    b_mantissa: i128,
    b_scale: u32,
) -> Option<(i128, u32)>;

/// What `Decimal::checked_sub` returns on the decimals with the given parts,
/// itself taken as its parts (`None` on overflow).
pub uninterp spec fn decimal_checked_sub(
    a_mantissa: i128,
    a_scale: u32,
    b_mantissa: i128,
    b_scale: u32,
) -> Option<(i128, u32)>;

/// Calls `Decimal::checked_add` on `Decimal::from_i128_with_scale` of both
/// operands and hands back the parts (`mantissa()`, `scale()`) of the sum.
/// The contract claims that the result is what `decimal_checked_add` names
/// and that a sum is again a valid decimal (every `Decimal` has a 96-bit
/// mantissa and a scale of at most 28). `from_i128_with_scale` panics outside
/// those bounds, so they are required of the operands. It also claims that
/// the sum of two operands that are not negative is not negative: both
/// carry the positive sign, so every path of the addition (including the
/// rounding that makes room at a smaller scale) keeps the first operand's
/// sign or hands back the other operand. And it claims the exact case, as
/// `exact_combination` puts it: a zero first operand gives the second back,
/// a zero second operand gives the first back, and otherwise, where the
/// operands brought to the larger scale add up to something that fits in
/// 96 bits, the sum is that, at that scale (every path of the addition
/// aligns the scales and adds exactly, and rounds only a result that does
/// not fit).
#[verifier::external_body]
fn decimal_add_parts(a_mantissa: i128, a_scale: u32, b_mantissa: i128, b_scale: u32) -> (r: Option<(i128, u32)>)
    requires
        -MAX_MANTISSA <= a_mantissa <= MAX_MANTISSA,
        a_scale <= MAX_SCALE,
        -MAX_MANTISSA <= b_mantissa <= MAX_MANTISSA,
        b_scale <= MAX_SCALE,
    ensures
        r == decimal_checked_add(a_mantissa, a_scale, b_mantissa, b_scale),
        r matches Some(p) ==> -MAX_MANTISSA <= p.0 <= MAX_MANTISSA && p.1 <= MAX_SCALE,
        a_mantissa >= 0 && b_mantissa >= 0 ==> (r matches Some(p) ==> p.0 >= 0),
        exact_combination(a_mantissa, a_scale, b_mantissa, b_scale, false) matches Some(p) ==> r == Some(p),
{
    let a = Decimal::from_i128_with_scale(a_mantissa, a_scale);
    let b = Decimal::from_i128_with_scale(b_mantissa, b_scale);
    match a.checked_add(b) {
        Some(d) => Some((d.mantissa(), d.scale())),
        None => None,
    }
}

/// Calls `Decimal::checked_sub` on `Decimal::from_i128_with_scale` of both
/// operands and hands back the parts of the difference. The contract claims
/// what `decimal_add_parts` claims, with `decimal_checked_sub` as the name;
/// the sign fact is that taking a non-positive amount from a non-negative
/// one gives a non-negative result (the signs differ, so it is an addition
/// of magnitudes under the first operand's sign; a zero second operand gives
/// the first back); the exact case is `exact_combination` with the second
/// operand negated (a zero first operand gives the negated second back).
#[verifier::external_body]
fn decimal_sub_parts(a_mantissa: i128, a_scale: u32, b_mantissa: i128, b_scale: u32) -> (r: Option<(i128, u32)>)
    requires
        -MAX_MANTISSA <= a_mantissa <= MAX_MANTISSA,
        a_scale <= MAX_SCALE,
        -MAX_MANTISSA <= b_mantissa <= MAX_MANTISSA,
        b_scale <= MAX_SCALE,
    ensures
        r == decimal_checked_sub(a_mantissa, a_scale, b_mantissa, b_scale),
        r matches Some(p) ==> -MAX_MANTISSA <= p.0 <= MAX_MANTISSA && p.1 <= MAX_SCALE,
        a_mantissa >= 0 && b_mantissa <= 0 ==> (r matches Some(p) ==> p.0 >= 0),
        exact_combination(a_mantissa, a_scale, b_mantissa, b_scale, true) matches Some(p) ==> r == Some(p),
{
    let a = Decimal::from_i128_with_scale(a_mantissa, a_scale);
    let b = Decimal::from_i128_with_scale(b_mantissa, b_scale);
    match a.checked_sub(b) {
        Some(d) => Some((d.mantissa(), d.scale())),
        None => None,
    }
}

/// An amount of money: `mantissa / 10^scale`. Two amounts are `==` when
/// they stand for the same number, whatever their scales (`1.5 == 1.50`), as
/// `Decimal`s are.
#[derive(Clone, Copy, Debug)]
pub struct Amount {
    pub mantissa: i128,
    pub scale: u32,
}

/// `10^n`.
pub open spec fn pow10(n: nat) -> int
    decreases n,
{
    if n == 0 {
        1
    } else {
        10 * pow10((n - 1) as nat)
    }
}

/// `a + b` (or `a - b` where `negate_b`), as parts, where no rounding is
/// needed: with a zero operand the other one (negated where it is the second
/// of a difference) unchanged; otherwise both brought to the larger scale
/// and combined exactly at that scale. `None` where that result does not fit
/// in 96 bits.
pub open spec fn exact_combination(a_m: i128, a_s: u32, b_m: i128, b_s: u32, negate_b: bool) -> Option<(i128, u32)> {
    let bm: int = if negate_b {
        -b_m
    } else {
        b_m as int
    };
    if a_m == 0 {
        Some((bm as i128, b_s))
    } else if b_m == 0 {
        Some((a_m, a_s))
    } else {
        let s: u32 = if a_s >= b_s {
            a_s
        } else {
            b_s
        };
        let m = a_m * pow10((s - a_s) as nat) + bm * pow10((s - b_s) as nat);
        if -MAX_MANTISSA <= m <= MAX_MANTISSA {
            Some((m as i128, s))
        } else {
            None
        }
    }
}

/// The two amounts stand for the same number:
/// `a.mantissa / 10^a.scale == b.mantissa / 10^b.scale`.
pub open spec fn same_value(a: Amount, b: Amount) -> bool {
    a.mantissa * pow10(b.scale as nat) == b.mantissa * pow10(a.scale as nat)
}

proof fn lemma_pow10_positive(n: nat)
    ensures
        pow10(n) >= 1,
    decreases n,
{
    if n > 0 {
        lemma_pow10_positive((n - 1) as nat);
    }
}

proof fn lemma_pow10_adds(a: nat, b: nat)
    ensures
        pow10(a + b) == pow10(a) * pow10(b),
    decreases a,
{
    if a > 0 {
        let p = pow10((a - 1) as nat);
        let q = pow10(b);
        lemma_pow10_adds((a - 1) as nat, b);
        assert(pow10(a + b) == 10 * pow10((a - 1 + b) as nat));
        assert(10 * (p * q) == (10 * p) * q) by (nonlinear_arith);
    }
}

/// The amount as a whole number of `10^-sc` units (for `a.scale <= sc`).
pub open spec fn value_at(a: Amount, sc: nat) -> int {
    a.mantissa * pow10((sc - a.scale) as nat)
}

/// An amount counted in smaller units keeps its sign.
pub proof fn lemma_value_sign(a: Amount, sc: nat)
    ensures
        a.mantissa > 0 ==> value_at(a, sc) > 0,
        a.mantissa == 0 ==> value_at(a, sc) == 0,
        a.mantissa < 0 ==> value_at(a, sc) < 0,
{
    let p = pow10((sc - a.scale) as nat);
    lemma_pow10_positive((sc - a.scale) as nat);
    assert(a.mantissa > 0 ==> a.mantissa * p > 0) by (nonlinear_arith)
        requires
            p >= 1,
    ;
    assert(a.mantissa == 0 ==> a.mantissa * p == 0) by (nonlinear_arith);
    assert(a.mantissa < 0 ==> a.mantissa * p < 0) by (nonlinear_arith)
        requires
            p >= 1,
    ;
}

/// Where `a + b` (or `a - b`), counted in units of `10^-sc` for a scale
/// `sc` at least that of both, fits in 96 bits, no rounding is needed: the
/// exact combination exists, its scale is at most `sc`, and it stands for
/// that sum.
pub proof fn lemma_exact_step(a: Amount, b: Amount, sc: nat, negate_b: bool)
    requires
        a.scale <= sc,
        b.scale <= sc,
        -MAX_MANTISSA <= a.mantissa <= MAX_MANTISSA,
        -MAX_MANTISSA <= b.mantissa <= MAX_MANTISSA,
        -MAX_MANTISSA <= value_at(a, sc) + (if negate_b {
            -value_at(b, sc)
        } else {
            value_at(b, sc)
        }) <= MAX_MANTISSA,
    ensures
        exact_combination(a.mantissa, a.scale, b.mantissa, b.scale, negate_b) matches Some(p) && p.1 <= sc
            && value_at(amount_of(p), sc) == value_at(a, sc) + (if negate_b {
            -value_at(b, sc)
        } else {
            value_at(b, sc)
        }),
{
    let bm: int = if negate_b {
        -b.mantissa
    } else {
        b.mantissa as int
    };
    let vb: int = if negate_b {
        -value_at(b, sc)
    } else {
        value_at(b, sc)
    };
    lemma_pow10_positive((sc - b.scale) as nat);
    lemma_pow10_positive((sc - a.scale) as nat);
    assert(vb == bm * pow10((sc - b.scale) as nat)) by (nonlinear_arith)
        requires
            vb == (if negate_b { -value_at(b, sc) } else { value_at(b, sc) }),
            bm == (if negate_b { -b.mantissa } else { b.mantissa as int }),
            value_at(b, sc) == b.mantissa * pow10((sc - b.scale) as nat),
    ;
    if a.mantissa == 0 {
        assert(value_at(a, sc) == 0) by (nonlinear_arith)
            requires
                a.mantissa == 0,
                value_at(a, sc) == a.mantissa * pow10((sc - a.scale) as nat),
        ;
    } else if b.mantissa == 0 {
        assert(bm == 0);
        assert(vb == 0) by (nonlinear_arith)
            requires
                bm == 0,
                vb == bm * pow10((sc - b.scale) as nat),
        ;
    } else {
        let s: u32 = if a.scale >= b.scale {
            a.scale
        } else {
            b.scale
        };
        let da = (s - a.scale) as nat;
        let db = (s - b.scale) as nat;
        let e = (sc - s) as nat;
        let pa = pow10(da);
        let pb = pow10(db);
        let q = pow10(e);
        lemma_pow10_adds(da, e);
        lemma_pow10_adds(db, e);
        lemma_pow10_positive(e);
        assert(pow10((sc - a.scale) as nat) == pa * q);
        assert(pow10((sc - b.scale) as nat) == pb * q);
        let m = a.mantissa * pa + bm * pb;
        assert(value_at(a, sc) + vb == m * q) by (nonlinear_arith)
            requires
                value_at(a, sc) == a.mantissa * (pa * q),
                vb == bm * (pb * q),
                m == a.mantissa * pa + bm * pb,
        ;
        assert(-MAX_MANTISSA <= m <= MAX_MANTISSA) by (nonlinear_arith)
            requires
                q >= 1,
                -MAX_MANTISSA <= m * q <= MAX_MANTISSA,
        ;
    }
}

/// For scales `s1 <= s2`, the amounts `(m1, s1)` and `(m2, s2)` are equal
/// exactly when `m1 * 10^(s2 - s1) == m2`.
proof fn lemma_same_value_scaled(a: Amount, b: Amount)
    requires
        a.scale <= b.scale,
    ensures
        same_value(a, b) <==> a.mantissa * pow10((b.scale - a.scale) as nat) == b.mantissa,
{
    let d = (b.scale - a.scale) as nat;
    let p = pow10(a.scale as nat);
    let q = pow10(d);
    lemma_pow10_adds(d, a.scale as nat);
    lemma_pow10_positive(a.scale as nat);
    assert(pow10(b.scale as nat) == q * p);
    let x = a.mantissa * q;
    let y = b.mantissa as int;
    assert(a.mantissa * (q * p) == x * p) by (nonlinear_arith)
        requires
            x == a.mantissa * q,
    ;
    assert(x * p == y * p <==> x == y) by (nonlinear_arith)
        requires
            p >= 1,
    ;
}

/// Whether `a * 10^k == b`, computing `a * 10^i` step by step; once a step
/// leaves the range of `i128` the product is larger in magnitude than `b`.
fn scaled_equals(a: i128, k: u32, b: i128) -> (r: bool)
    ensures
        r == (a * pow10(k as nat) == b),
{
    let mut x: i128 = a;
    let mut i: u32 = 0;
    while i < k
        invariant
            i <= k,
            x == a * pow10(i as nat),
        decreases k - i,
    {
        let ghost p = pow10(i as nat);
        assert(pow10((i + 1) as nat) == 10 * p);
        assert(a * (10 * p) == (a * p) * 10) by (nonlinear_arith);
        match x.checked_mul(10) {
            Some(y) => {
                x = y;
                i = i + 1;
            },
            None => {
                proof {
                    let y = x * 10;
                    let rest = pow10((k - i - 1) as nat);
                    lemma_pow10_positive((k - i - 1) as nat);
                    lemma_pow10_adds(1, (k - i - 1) as nat);
                    lemma_pow10_adds(i as nat, (k - i) as nat);
                    assert(pow10(1) == 10) by {
                        assert(pow10(0) == 1);
                    }
                    assert(pow10(k as nat) == p * (10 * rest));
                    assert(a * (p * (10 * rest)) == (a * p * 10) * rest) by (nonlinear_arith);
                    assert(a * p * 10 == y);
                    assert(y > i128::MAX ==> y * rest >= y) by (nonlinear_arith)
                        requires
                            rest >= 1,
                    ;
                    assert(y < i128::MIN ==> y * rest <= y) by (nonlinear_arith)
                        requires
                            rest >= 1,
                    ;
                }
                return false;
            },
        }
    }
    x == b
}

impl PartialEq for Amount {
    fn eq(&self, other: &Amount) -> (r: bool) {
        if self.scale <= other.scale {
            proof {
                lemma_same_value_scaled(*self, *other);
            }
            scaled_equals(self.mantissa, other.scale - self.scale, other.mantissa)
        } else {
            proof {
                lemma_same_value_scaled(*other, *self);
            }
            scaled_equals(other.mantissa, self.scale - other.scale, self.mantissa)
        }
    }
}

impl PartialEqSpecImpl for Amount {
    open spec fn obeys_eq_spec() -> bool {
        true
    }

    open spec fn eq_spec(&self, other: &Amount) -> bool {
        same_value(*self, *other)
    }
}

impl Eq for Amount {}

/// The amount made of the given parts.
pub open spec fn amount_of(p: (i128, u32)) -> Amount {
    Amount { mantissa: p.0, scale: p.1 }
}

/// `a + b` as a decimal sum, `None` where the sum overflows.
pub open spec fn spec_add(a: Amount, b: Amount) -> Option<Amount> {
    match decimal_checked_add(a.mantissa, a.scale, b.mantissa, b.scale) {
        Some(p) => Some(amount_of(p)),
        None => None,
    }
}

/// `a - b` as a decimal difference, `None` where it overflows.
pub open spec fn spec_sub(a: Amount, b: Amount) -> Option<Amount> {
    match decimal_checked_sub(a.mantissa, a.scale, b.mantissa, b.scale) {
        Some(p) => Some(amount_of(p)),
        None => None,
    }
}

impl Amount {
    /// The parts lie in the range of a `Decimal`.
    pub open spec fn wf(self) -> bool {
        &&& -MAX_MANTISSA <= self.mantissa <= MAX_MANTISSA
        &&& self.scale <= MAX_SCALE
    }

    /// Zero, with no decimal places (`Decimal::ZERO`).
    pub fn zero() -> (r: Amount)
        ensures
            r == (Amount { mantissa: 0, scale: 0 }),
            r.wf(),
    {
        Amount { mantissa: 0, scale: 0 }
    }

    /// The whole number `n` (`Decimal::from(n)`).
    pub fn from_i64(n: i64) -> (r: Amount)
        ensures
            r == (Amount { mantissa: n as i128, scale: 0 }),
            r.wf(),
    {
        Amount { mantissa: n as i128, scale: 0 }
    }

    /// The amount `mantissa / 10^scale`, or `None` where a `Decimal` cannot
    /// hold those parts.
    pub fn new(mantissa: i128, scale: u32) -> (r: Option<Amount>)
        ensures
            r matches Some(a) ==> a == (Amount { mantissa, scale }),
            r is Some <==> (Amount { mantissa, scale }).wf(),
    {
        if -MAX_MANTISSA <= mantissa && mantissa <= MAX_MANTISSA && scale <= MAX_SCALE {
            Some(Amount { mantissa, scale })
        } else {
            None
        }
    }

    /// Whether the amount is greater than zero. The sign of a decimal is the
    /// sign of its mantissa, whatever its scale.
    pub fn is_positive(&self) -> (r: bool)
        ensures
            r == (self.mantissa > 0),
    {
        self.mantissa > 0
    }

    /// `self + other`, `None` where the sum overflows.
    pub fn checked_add(&self, other: &Amount) -> (r: Option<Amount>)
        requires
            self.wf(),
            other.wf(),
        ensures
            r == spec_add(*self, *other),
            r matches Some(a) ==> a.wf(),
            self.mantissa >= 0 && other.mantissa >= 0 ==> (r matches Some(a) ==> a.mantissa >= 0),
            exact_combination(self.mantissa, self.scale, other.mantissa, other.scale, false) matches Some(p) ==> r
                == Some(amount_of(p)),
    {
        match decimal_add_parts(self.mantissa, self.scale, other.mantissa, other.scale) {
            Some(p) => Some(Amount { mantissa: p.0, scale: p.1 }),
            None => None,
        }
    }

    /// `self - other`, `None` where the difference overflows.
    pub fn checked_sub(&self, other: &Amount) -> (r: Option<Amount>)
        requires
            self.wf(),
            other.wf(),
        ensures
            r == spec_sub(*self, *other),
            r matches Some(a) ==> a.wf(),
            self.mantissa >= 0 && other.mantissa <= 0 ==> (r matches Some(a) ==> a.mantissa >= 0),
            exact_combination(self.mantissa, self.scale, other.mantissa, other.scale, true) matches Some(p) ==> r
                == Some(amount_of(p)),
    {
        match decimal_sub_parts(self.mantissa, self.scale, other.mantissa, other.scale) {
            Some(p) => Some(Amount { mantissa: p.0, scale: p.1 }),
            None => None,
        }
    }
}

} // verus!
