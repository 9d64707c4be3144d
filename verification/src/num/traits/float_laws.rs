//! Laws of the floating-point operations, proved for every format at once from the
//! contracts of the trait.

use vstd::arithmetic::power2::{
    lemma2_to64, lemma_pow2_adds, lemma_pow2_pos, lemma_pow2_strictly_increases,
    lemma_pow2_unfold, pow2,
};
use vstd::prelude::*;
use super::{
    class_of, encodes_infinity, encodes_nan, encodes_normal, encodes_signaling_nan,
    encodes_subnormal, encodes_zero,
    has_ulp, order_key, precedes, steps_down_to, steps_up_to, units,
    FloatingPointClassification,
    FloatingPointFormat,
};

verus! {

/// How many of the five kinds a value is of.
pub open spec fn kinds_of<F: FloatingPointFormat>(x: F) -> int {
    (if encodes_nan(x) {
        1int
    } else {
        0int
    }) + (if encodes_infinity(x) {
        1int
    } else {
        0int
    }) + (if encodes_zero(x) {
        1int
    } else {
        0int
    }) + (if encodes_normal(x) {
        1int
    } else {
        0int
    }) + (if encodes_subnormal(x) {
        1int
    } else {
        0int
    })
}

/// Every encoding is of exactly one kind (NaN, infinite, zero, normal or
/// subnormal), and its class is the one of the ten that names that kind and the
/// sign, or for a NaN whether it is signaling: classification is total, and no
/// two classes apply to one value.
pub proof fn lemma_classes_partition<F: FloatingPointFormat>(x: F)
    ensures
        kinds_of(x) == 1,
        encodes_nan(x) <==> (class_of(x) == FloatingPointClassification::QuietNaN || class_of(x)
            == FloatingPointClassification::SignalingNaN),
        encodes_signaling_nan(x) <==> class_of(x) == FloatingPointClassification::SignalingNaN,
        encodes_infinity(x) <==> (class_of(x) == FloatingPointClassification::NegativeInfinity
            || class_of(x) == FloatingPointClassification::PositiveInfinity),
        encodes_zero(x) <==> (class_of(x) == FloatingPointClassification::NegativeZero || class_of(x)
            == FloatingPointClassification::PositiveZero),
        encodes_normal(x) <==> (class_of(x) == FloatingPointClassification::NegativeNormal
            || class_of(x) == FloatingPointClassification::PositiveNormal),
        encodes_subnormal(x) <==> (class_of(x) == FloatingPointClassification::NegativeSubnormal
            || class_of(x) == FloatingPointClassification::PositiveSubnormal),
        x.negative() <==> (class_of(x) == FloatingPointClassification::NegativeInfinity || class_of(x)
            == FloatingPointClassification::NegativeZero || class_of(x)
            == FloatingPointClassification::NegativeNormal || class_of(x)
            == FloatingPointClassification::NegativeSubnormal) || (encodes_nan(x)
            && x.negative()),
{
    x.encoding();
}

/// The magnitude of a value tells its kind: zero has the magnitude 0, and the
/// magnitudes of infinity and of the NaNs start where those of the numbers end.
pub proof fn lemma_magnitude_of_kinds<F: FloatingPointFormat>(x: F)
    ensures
        encodes_zero(x) <==> x.magnitude() == 0,
        encodes_infinity(x) <==> x.magnitude() == F::exponent_limit() * F::fraction_limit(),
        encodes_nan(x) <==> x.magnitude() > F::exponent_limit() * F::fraction_limit(),
{
    x.encoding();
    let e = x.exponent_field() as int;
    let f = x.fraction_field() as int;
    let l = F::fraction_limit() as int;
    let m = F::exponent_limit() as int;
    lemma_pow2_pos(F::fraction_bits());
    assert(e * l + f == 0 <==> e == 0 && f == 0) by (nonlinear_arith)
        requires
            0 <= e,
            0 <= f < l,
    ;
    assert(e < m ==> e * l + f < m * l) by (nonlinear_arith)
        requires
            0 <= e <= m,
            0 <= f < l,
    ;
    assert(e == m ==> e * l + f == m * l + f);
}

/// For every value that is not a NaN, an infinity or a zero, `next_up` gives a
/// greater value: the one that comes next in the order of the format.
pub proof fn lemma_next_up_is_greater<F: FloatingPointFormat>(x: F, r: F)
    requires
        !encodes_nan(x),
        !encodes_infinity(x),
        !encodes_zero(x),
        steps_up_to(x, r),
    ensures
        precedes(x, r),
        order_key(r) == order_key(x) + 1,
{
    lemma_magnitude_of_kinds(x);
    lemma_magnitude_of_kinds(r);
}

/// For every value that is not a NaN, an infinity or a zero, `next_down` gives a
/// lesser value: the one that comes just before in the order of the format.
pub proof fn lemma_next_down_is_less<F: FloatingPointFormat>(x: F, r: F)
    requires
        !encodes_nan(x),
        !encodes_infinity(x),
        !encodes_zero(x),
        steps_down_to(x, r),
    ensures
        precedes(r, x),
        order_key(r) == order_key(x) - 1,
{
    lemma_magnitude_of_kinds(x);
    lemma_magnitude_of_kinds(r);
}

/// Stepping up and then down, or down and then up, gives the value back unless a
/// zero lies on the way.
pub proof fn lemma_steps_undo_each_other<F: FloatingPointFormat>(x: F, up: F, back: F)
    requires
        !encodes_nan(x),
        !encodes_infinity(x),
        !encodes_zero(x),
        steps_up_to(x, up),
        !encodes_infinity(up),
        !encodes_zero(up),
        steps_down_to(up, back),
    ensures
        back == x,
{
    lemma_magnitude_of_kinds(x);
    lemma_magnitude_of_kinds(up);
    back.encoding_is_injective(x);
}

/// The fields of the value whose magnitude is one more than that of `x`: the
/// next fraction, or the next exponent with the fraction zero.
pub proof fn lemma_fields_of_successor<F: FloatingPointFormat>(x: F, next: F)
    requires
        next.magnitude() == x.magnitude() + 1,
    ensures
        x.fraction_field() + 1 < F::fraction_limit() ==> next.exponent_field()
            == x.exponent_field() && next.fraction_field() == x.fraction_field() + 1,
        x.fraction_field() + 1 == F::fraction_limit() ==> next.exponent_field()
            == x.exponent_field() + 1 && next.fraction_field() == 0,
{
    x.encoding();
    next.encoding();
    let l = F::fraction_limit() as int;
    let e = x.exponent_field() as int;
    let f = x.fraction_field() as int;
    let e2 = next.exponent_field() as int;
    let f2 = next.fraction_field() as int;
    assert((f + 1 < l ==> e2 == e && f2 == f + 1) && (f + 1 == l ==> e2 == e + 1 && f2 == 0))
        by (nonlinear_arith)
        requires
            e2 * l + f2 == e * l + f + 1,
            0 <= f < l,
            0 <= f2 < l,
            0 <= e,
            0 <= e2,
    ;
}

/// The unit in the last place of a number is the distance to the next number
/// further from zero: in units of the least positive value, what `ulp` returns
/// for `x` is the difference between `x` and the value `next` whose magnitude
/// is one more, where that value is a number too.
pub proof fn lemma_ulp_is_gap<F: FloatingPointFormat>(x: F, next: F, r: F)
    requires
        x.exponent_field() < F::exponent_limit(),
        next.exponent_field() < F::exponent_limit(),
        next.magnitude() == x.magnitude() + 1,
        has_ulp(x, r),
    ensures
        units(r) == units(next) - units(x),
{
    x.encoding();
    next.encoding();
    r.encoding();
    lemma_fields_of_successor(x, next);
    lemma2_to64();
    let l = F::fraction_limit() as int;
    let e = x.exponent_field();
    let f = x.fraction_field() as int;
    if e > 0 {
        let p = pow2((e - 1) as nat) as int;
        lemma_pow2_unfold(e);
        assert(units(x) == (l + f) * p);
        if f + 1 < l {
            assert(units(next) == (l + f + 1) * p);
            assert((l + f + 1) * p - (l + f) * p == p) by (nonlinear_arith);
        } else {
            assert(units(next) == (l + 0) * pow2(e));
            assert(l * (2 * p) - (l + f) * p == p) by (nonlinear_arith)
                requires
                    f + 1 == l,
            ;
        }
        assert(units(next) - units(x) == p);
        if e > F::fraction_bits() {
            lemma_pow2_adds(F::fraction_bits(), (e - F::fraction_bits() - 1) as nat);
            assert(units(r) == (l + 0) * pow2((e - F::fraction_bits() - 1) as nat));
        } else {
            lemma_pow2_pos((e - 1) as nat);
            assert(units(r) == p);
        }
    } else {
        assert(units(x) == f);
        assert(units(r) == 1);
        if f + 1 < l {
            assert(units(next) == f + 1);
        } else {
            assert(units(next) == (l + 0) * pow2(0)) ;
            assert((l + 0) * pow2(0) == l) by (nonlinear_arith)
                requires
                    pow2(0) == 1,
            ;
        }
    }
}

/// Among numbers, the magnitude grows with the absolute value: the order of the
/// encodings is the order of the values they stand for.
pub proof fn lemma_units_grow_with_magnitude<F: FloatingPointFormat>(a: F, b: F)
    requires
        a.exponent_field() < F::exponent_limit(),
        b.exponent_field() < F::exponent_limit(),
        a.magnitude() < b.magnitude(),
    ensures
        units(a) < units(b),
{
    a.encoding();
    b.encoding();
    let l = F::fraction_limit() as int;
    let e1 = a.exponent_field();
    let f1 = a.fraction_field() as int;
    let e2 = b.exponent_field();
    let f2 = b.fraction_field() as int;
    assert(e1 < e2 || (e1 == e2 && f1 < f2)) by (nonlinear_arith)
        requires
            e1 * l + f1 < e2 * l + f2,
            0 <= f1 < l,
            0 <= f2 < l,
    ;
    lemma2_to64();
    if e1 == e2 {
        if e1 > 0 {
            let p = pow2((e1 - 1) as nat) as int;
            lemma_pow2_pos((e1 - 1) as nat);
            assert((l + f1) * p < (l + f2) * p) by (nonlinear_arith)
                requires
                    f1 < f2,
                    p > 0,
            ;
        }
    } else {
        let q = pow2((e2 - 1) as nat) as int;
        lemma_pow2_pos((e2 - 1) as nat);
        assert(l * q <= (l + f2) * q) by (nonlinear_arith)
            requires
                0 <= f2,
                q > 0,
        ;
        if e1 == 0 {
            assert(l <= l * q) by (nonlinear_arith)
                requires
                    q >= 1,
                    l >= 0,
            ;
        } else {
            let p = pow2((e1 - 1) as nat) as int;
            lemma_pow2_pos((e1 - 1) as nat);
            lemma_pow2_unfold(e1);
            if e1 < e2 - 1 {
                lemma_pow2_strictly_increases(e1, (e2 - 1) as nat);
            }
            assert((l + f1) * p < l * (2 * p)) by (nonlinear_arith)
                requires
                    0 <= f1 < l,
                    p > 0,
            ;
            assert(l * (2 * p) <= l * q) by (nonlinear_arith)
                requires
                    2 * p <= q,
                    l >= 0,
            ;
        }
    }
}

} // verus!
