//! Which 64 bit floating point numbers are 32 bit floating point numbers.
//!
//! Numbers are handled by their IEEE 754 encodings: a sign bit, an exponent
//! field and a fraction field, from the high end to the low end.
use vstd::arithmetic::power2::pow2;
use vstd::prelude::*;

verus! {

/// The sign field of a 32 bit encoding.
pub open spec fn sign32(bits: u32) -> int {
    bits as int / 0x8000_0000
}

/// The exponent field of a 32 bit encoding.
pub open spec fn exponent32(bits: u32) -> int {
    (bits as int / 0x80_0000) % 0x100
}

/// The fraction field of a 32 bit encoding.
pub open spec fn fraction32(bits: u32) -> int {
    bits as int % 0x80_0000
}

/// The sign field of a 64 bit encoding.
pub open spec fn sign64(bits: u64) -> int {
    bits as int / 0x8000_0000_0000_0000
}

/// The exponent field of a 64 bit encoding.
pub open spec fn exponent64(bits: u64) -> int {
    (bits as int / 0x10_0000_0000_0000) % 0x800
}

/// The fraction field of a 64 bit encoding.
pub open spec fn fraction64(bits: u64) -> int {
    bits as int % 0x10_0000_0000_0000
}

/// The magnitude of a finite number, counted in units of the smallest positive
/// number of its format, whose fraction field has `width` bits.
pub open spec fn magnitude(width: nat, exponent: int, fraction: int) -> int {
    if exponent == 0 {
        fraction
    } else {
        (fraction + pow2(width)) * pow2((exponent - 1) as nat)
    }
}

/// Whether `narrow` and `wide` encode the same number.
///
/// - Finite numbers are the same if they have the same sign and the same
///   magnitude. The units of the two formats are `2^-149` and `2^-1074`.
/// - Infinities are the same if they have the same sign.
/// - NaNs are the same if they have the same sign and the same fraction and are
///   quiet, which the highest fraction bit tells: converting a signalling NaN
///   to another width changes it.
pub open spec fn same_number(narrow: u32, wide: u64) -> bool {
    &&& sign32(narrow) == sign64(wide)
    &&& (exponent32(narrow) == 0xff <==> exponent64(wide) == 0x7ff)
    &&& if exponent64(wide) == 0x7ff {
        if fraction64(wide) == 0 {
            fraction32(narrow) == 0
        } else {
            &&& fraction32(narrow) >= 0x40_0000
            &&& fraction64(wide) == fraction32(narrow) * 0x2000_0000
        }
    } else {
        magnitude(52, exponent64(wide), fraction64(wide)) == magnitude(
            23,
            exponent32(narrow),
            fraction32(narrow),
        ) * pow2(925)
    }
}

/// The 32 bit encoding of a number that has one.
pub open spec fn narrowed(wide: u64) -> Option<u32> {
    if exists|narrow: u32| same_number(narrow, wide) {
        Some(choose|narrow: u32| same_number(narrow, wide))
    } else {
        None
    }
}

/// The 64 bit encoding of the number with the 32 bit encoding `narrow`.
pub open spec fn widened(narrow: u32) -> u64 {
    choose|wide: u64| same_number(narrow, wide)
}

/// Widening a number that was narrowed gives it back.
pub proof fn lemma_widened_narrowed(wide: u64)
    requires
        narrowed(wide) is Some,
    ensures
        widened(narrowed(wide)->Some_0) == wide,
{
    let narrow = choose|narrow: u32| same_number(narrow, wide);
    assert(same_number(narrow, wide));
    lemma_wide_is_unique(narrow, wide, widened(narrow));
}

/// A number with a nonzero exponent field lies between two powers of two.
proof fn lemma_magnitude_bounds(width: nat, exponent: int, fraction: int)
    requires
        exponent >= 1,
        0 <= fraction < pow2(width),
    ensures
        pow2((width + exponent - 1) as nat) <= magnitude(width, exponent, fraction),
        magnitude(width, exponent, fraction) < pow2((width + exponent) as nat),
{
    let e = (exponent - 1) as nat;
    vstd::arithmetic::power2::lemma_pow2_pos(e);
    vstd::arithmetic::power2::lemma_pow2_adds(width, e);
    vstd::arithmetic::power2::lemma_pow2_adds((width + 1) as nat, e);
    vstd::arithmetic::power2::lemma_pow2_unfold((width + 1) as nat);
    vstd::arithmetic::mul::lemma_mul_inequality(
        pow2(width) as int,
        fraction + pow2(width),
        pow2(e) as int,
    );
    vstd::arithmetic::mul::lemma_mul_strict_inequality(
        fraction + pow2(width),
        2 * pow2(width) as int,
        pow2(e) as int,
    );
}

/// Powers of two are ordered as their exponents.
proof fn lemma_pow2_less(a: nat, b: nat)
    requires
        pow2(a) < pow2(b),
    ensures
        a < b,
{
    if b < a {
        vstd::arithmetic::power2::lemma_pow2_strictly_increases(b, a);
    }
}

/// Two products with powers of two that are equal stay equal when the smaller
/// power is divided out.
proof fn lemma_divide_out(x: int, a: nat, y: int, b: nat)
    requires
        a <= b,
        x * pow2(a) == y * pow2(b),
    ensures
        x == y * pow2((b - a) as nat),
{
    vstd::arithmetic::power2::lemma_pow2_pos(a);
    vstd::arithmetic::power2::lemma_pow2_adds((b - a) as nat, a);
    let p = pow2(a) as int;
    let q = pow2((b - a) as nat) as int;
    assert(y * (q * p) == p * (y * q)) by (nonlinear_arith);
    assert(x * p == p * x) by (nonlinear_arith);
    vstd::arithmetic::mul::lemma_mul_equality_converse(p, x, y * q);
}

/// The cases in which a finite 64 bit number is a 32 bit number, field by
/// field.
pub open spec fn same_fields(e32: int, m32: int, e64: int, m64: int) -> bool {
    if e32 != 0 {
        e64 == e32 + 896 && m64 == m32 * 0x2000_0000
    } else if m32 == 0 {
        e64 == 0 && m64 == 0
    } else {
        874 <= e64 <= 896 && m64 + 0x10_0000_0000_0000 == m32 * pow2((926 - e64) as nat)
    }
}

/// Equal magnitudes make equal fields.
pub proof fn lemma_same_fields(e32: int, m32: int, e64: int, m64: int)
    requires
        0 <= e32 < 0xff,
        0 <= m32 < 0x80_0000,
        0 <= e64 < 0x7ff,
        0 <= m64 < 0x10_0000_0000_0000,
        magnitude(52, e64, m64) == magnitude(23, e32, m32) * pow2(925),
    ensures
        same_fields(e32, m32, e64, m64),
{
    vstd::arithmetic::power2::lemma2_to64();
    vstd::arithmetic::power2::lemma2_to64_rest();
    let narrow = magnitude(23, e32, m32);
    let wide = magnitude(52, e64, m64);
    vstd::arithmetic::power2::lemma_pow2_pos(925);
    if e64 == 0 {
        vstd::arithmetic::power2::lemma_pow2_strictly_increases(52, 925);
        if narrow >= 1 {
            vstd::arithmetic::mul::lemma_mul_inequality(1, narrow, pow2(925) as int);
            assert(false);
        }
        if e32 != 0 {
            lemma_magnitude_bounds(23, e32, m32);
            vstd::arithmetic::power2::lemma_pow2_pos((23 + e32 - 1) as nat);
            assert(false);
        }
        assert(narrow * pow2(925) == 0) by (nonlinear_arith)
            requires
                narrow == 0,
        ;
    } else {
        lemma_magnitude_bounds(52, e64, m64);
        if e32 != 0 {
            lemma_magnitude_bounds(23, e32, m32);
            vstd::arithmetic::power2::lemma_pow2_adds((22 + e32) as nat, 925);
            vstd::arithmetic::power2::lemma_pow2_adds((23 + e32) as nat, 925);
            vstd::arithmetic::mul::lemma_mul_inequality(
                pow2((22 + e32) as nat) as int,
                narrow,
                pow2(925) as int,
            );
            vstd::arithmetic::mul::lemma_mul_strict_inequality(
                narrow,
                pow2((23 + e32) as nat) as int,
                pow2(925) as int,
            );
            lemma_pow2_less((947 + e32) as nat, (52 + e64) as nat);
            lemma_pow2_less((51 + e64) as nat, (948 + e32) as nat);
            assert(e64 == e32 + 896);
            let a = (e64 - 1) as nat;
            let b = (e32 - 1) as nat;
            vstd::arithmetic::power2::lemma_pow2_adds(b, 925);
            let s = m32 + pow2(23);
            let p = pow2(b) as int;
            let q = pow2(925) as int;
            assert((s * p) * q == s * (p * q)) by (nonlinear_arith);
            lemma_divide_out(m64 + pow2(52), a, s, b + 925);
            assert((b + 925 - a) as nat == 29);
            assert(s * pow2(29) == s * 0x2000_0000);
        } else {
            if m32 == 0 {
                vstd::arithmetic::power2::lemma_pow2_pos((51 + e64) as nat);
                assert(narrow * pow2(925) == 0) by (nonlinear_arith)
                    requires
                        narrow == 0,
                ;
                assert(false);
            }
            vstd::arithmetic::mul::lemma_mul_inequality(1, m32, pow2(925) as int);
            vstd::arithmetic::power2::lemma_pow2_adds(23, 925);
            vstd::arithmetic::mul::lemma_mul_strict_inequality(
                m32,
                pow2(23) as int,
                pow2(925) as int,
            );
            lemma_pow2_less((51 + e64) as nat, 948);
            lemma_pow2_less(925, (52 + e64) as nat);
            lemma_divide_out(m64 + pow2(52), (e64 - 1) as nat, m32, 925);
            assert((925 - (e64 - 1)) as nat == (926 - e64) as nat);
        }
    }
}

/// Equal fields make equal magnitudes.
pub proof fn lemma_same_magnitude(e32: int, m32: int, e64: int, m64: int)
    requires
        0 <= e32 < 0xff,
        0 <= m32 < 0x80_0000,
        same_fields(e32, m32, e64, m64),
    ensures
        magnitude(52, e64, m64) == magnitude(23, e32, m32) * pow2(925),
{
    vstd::arithmetic::power2::lemma2_to64();
    vstd::arithmetic::power2::lemma2_to64_rest();
    if e32 != 0 {
        let a = (e64 - 1) as nat;
        let b = (e32 - 1) as nat;
        let s = m32 + pow2(23);
        vstd::arithmetic::power2::lemma_pow2_adds(b, 925);
        vstd::arithmetic::power2::lemma_pow2_adds(29, a);
        assert(b + 925 == 29 + a);
        assert(m64 + pow2(52) == s * pow2(29));
        let p = pow2(b) as int;
        let q = pow2(925) as int;
        assert((s * p) * q == s * (p * q)) by (nonlinear_arith);
        let r = pow2(29) as int;
        let t = pow2(a) as int;
        assert((s * r) * t == s * (r * t)) by (nonlinear_arith);
    } else if m32 == 0 {
        assert(m32 * pow2(925) == 0) by (nonlinear_arith)
            requires
                m32 == 0,
        ;
    } else {
        let a = (e64 - 1) as nat;
        let c = (926 - e64) as nat;
        vstd::arithmetic::power2::lemma_pow2_adds(c, a);
        assert(c + a == 925);
        let r = pow2(c) as int;
        let t = pow2(a) as int;
        assert((m32 * r) * t == m32 * (r * t)) by (nonlinear_arith);
    }
}

/// A 64 bit encoding is made of its fields.
proof fn lemma_fields64(bits: u64)
    ensures
        bits == sign64(bits) * 0x8000_0000_0000_0000 + exponent64(bits) * 0x10_0000_0000_0000
            + fraction64(bits),
        0 <= sign64(bits) <= 1,
        0 <= exponent64(bits) < 0x800,
        0 <= fraction64(bits) < 0x10_0000_0000_0000,
{
}

/// A 32 bit encoding is made of its fields.
proof fn lemma_fields32(bits: u32)
    ensures
        bits == sign32(bits) * 0x8000_0000 + exponent32(bits) * 0x80_0000 + fraction32(bits),
        0 <= sign32(bits) <= 1,
        0 <= exponent32(bits) < 0x100,
        0 <= fraction32(bits) < 0x80_0000,
{
}

/// At most one 64 bit encoding is the same number as a 32 bit encoding.
pub proof fn lemma_wide_is_unique(narrow: u32, wide1: u64, wide2: u64)
    requires
        same_number(narrow, wide1),
        same_number(narrow, wide2),
    ensures
        wide1 == wide2,
{
    lemma_fields32(narrow);
    lemma_fields64(wide1);
    lemma_fields64(wide2);
    if exponent32(narrow) != 0xff {
        let (e, m) = (exponent32(narrow), fraction32(narrow));
        let (e1, m1) = (exponent64(wide1), fraction64(wide1));
        let (e2, m2) = (exponent64(wide2), fraction64(wide2));
        lemma_same_fields(e, m, e1, m1);
        lemma_same_fields(e, m, e2, m2);
        if e == 0 && m != 0 {
            if e1 < e2 {
                lemma_lower_exponent_is_larger(m, e1, e2);
            } else if e2 < e1 {
                lemma_lower_exponent_is_larger(m, e2, e1);
            }
        }
    }
}

/// Scaling to a lower exponent at least doubles a significand.
proof fn lemma_lower_exponent_is_larger(m: int, low: int, high: int)
    requires
        m > 0,
        874 <= low < high <= 896,
    ensures
        m * pow2((926 - low) as nat) >= 2 * (m * pow2((926 - high) as nat)),
{
    let h = (926 - high) as nat;
    let l = (926 - low) as nat;
    vstd::arithmetic::power2::lemma_pow2_unfold(h + 1);
    if h + 1 < l {
        vstd::arithmetic::power2::lemma_pow2_strictly_increases(h + 1, l);
    }
    let x = pow2(h) as int;
    let y = pow2(l) as int;
    assert(m * y >= 2 * (m * x)) by (nonlinear_arith)
        requires
            m > 0,
            y >= 2 * x,
    ;
}

/// At most one 32 bit encoding is the same number as a 64 bit encoding.
pub proof fn lemma_narrow_is_unique(narrow1: u32, narrow2: u32, wide: u64)
    requires
        same_number(narrow1, wide),
        same_number(narrow2, wide),
    ensures
        narrow1 == narrow2,
{
    lemma_fields32(narrow1);
    lemma_fields32(narrow2);
    lemma_fields64(wide);
    if exponent64(wide) != 0x7ff {
        let (e, m) = (exponent64(wide), fraction64(wide));
        let (m1, m2) = (fraction32(narrow1), fraction32(narrow2));
        lemma_same_fields(exponent32(narrow1), m1, e, m);
        lemma_same_fields(exponent32(narrow2), m2, e, m);
        if 874 <= e <= 896 {
            let p = pow2((926 - e) as nat) as int;
            vstd::arithmetic::power2::lemma_pow2_pos((926 - e) as nat);
            assert(m1 == m2) by (nonlinear_arith)
                requires
                    p > 0,
                    m1 * p == m2 * p,
            ;
        }
    }
}

/// Builds a 32 bit encoding from its fields.
fn encode32(sign: u32, exponent: u32, fraction: u32) -> (bits: u32)
    requires
        sign <= 1,
        exponent < 0x100,
        fraction < 0x80_0000,
    ensures
        sign32(bits) == sign,
        exponent32(bits) == exponent,
        fraction32(bits) == fraction,
{
    sign * 0x8000_0000 + exponent * 0x80_0000 + fraction
}

/// Finds the 32 bit encoding of the number with the 64 bit encoding `bits`.
fn find_narrow(bits: u64) -> (result: Option<u32>)
    ensures
        match result {
            Some(narrow) => same_number(narrow, bits),
            None => forall|narrow: u32| !same_number(narrow, bits),
        },
{
    proof {
        lemma_fields64(bits);
    }
    let sign: u32 = (bits / 0x8000_0000_0000_0000) as u32;
    let exponent: u64 = (bits / 0x10_0000_0000_0000) % 0x800;
    let fraction: u64 = bits % 0x10_0000_0000_0000;
    if exponent == 0x7ff {
        if fraction != 0 && (fraction < 0x8_0000_0000_0000 || fraction % 0x2000_0000 != 0) {
            assert forall|narrow: u32| !same_number(narrow, bits) by {
                lemma_fields32(narrow);
            }
            return None;
        }
        return Some(encode32(sign, 0xff, (fraction / 0x2000_0000) as u32));
    }
    if exponent == 0 && fraction == 0 {
        proof {
            lemma_same_magnitude(0, 0, 0, 0);
        }
        return Some(encode32(sign, 0, 0));
    }
    if 897 <= exponent && exponent <= 1150 && fraction % 0x2000_0000 == 0 {
        let narrow: u32 = (fraction / 0x2000_0000) as u32;
        proof {
            lemma_same_magnitude(
                exponent - 896,
                narrow as int,
                exponent as int,
                fraction as int,
            );
        }
        return Some(encode32(sign, (exponent - 896) as u32, narrow));
    }
    if 874 <= exponent && exponent <= 896 {
        let shift: u64 = 926 - exponent;
        let significand: u64 = fraction + 0x10_0000_0000_0000;
        let narrow: u64 = significand >> shift;
        let ghost p = pow2(shift as nat) as int;
        proof {
            vstd::arithmetic::power2::lemma2_to64();
            vstd::arithmetic::power2::lemma2_to64_rest();
            vstd::bits::lemma_u64_shr_is_div(significand, shift);
            if shift > 30 {
                vstd::arithmetic::power2::lemma_pow2_strictly_increases(30, shift as nat);
            }
            vstd::arithmetic::div_mod::lemma_fundamental_div_mod(significand as int, p);
            vstd::arithmetic::div_mod::lemma_mod_bound(significand as int, p);
            assert(0 < narrow < 0x80_0000) by (nonlinear_arith)
                requires
                    significand == p * narrow + significand as int % p,
                    0x10_0000_0000_0000 <= significand < 0x20_0000_0000_0000,
                    p >= 0x4000_0000,
                    0 <= significand as int % p < p,
                    p <= 0x10_0000_0000_0000,
                    narrow >= 0,
            ;
            vstd::bits::lemma_u64_shl_is_mul(narrow, shift);
        }
        if narrow << shift == significand {
            proof {
                lemma_same_magnitude(0, narrow as int, exponent as int, fraction as int);
            }
            return Some(encode32(sign, 0, narrow as u32));
        }
        assert forall|m: int| m >= 0 implies #[trigger] (m * p) != significand by {
            if m * p == significand {
                vstd::arithmetic::div_mod::lemma_div_by_multiple(m, p);
            }
        }
    }
    assert forall|narrow: u32| !same_number(narrow, bits) by {
        lemma_fields32(narrow);
        if same_number(narrow, bits) {
            lemma_same_fields(
                exponent32(narrow),
                fraction32(narrow),
                exponent as int,
                fraction as int,
            );
        }
    }
    None
}

/// Returns the 32 bit encoding of the number with the 64 bit encoding `bits`,
/// if that number has one.
pub fn narrow(bits: u64) -> (result: Option<u32>)
    ensures
        result == narrowed(bits),
{
    let result = find_narrow(bits);
    proof {
        if let Some(found) = result {
            assert(same_number(found, bits));
            lemma_narrow_is_unique(found, narrowed(bits)->Some_0, bits);
        }
    }
    result
}

} // verus!
