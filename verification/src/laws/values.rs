//! Laws of values and of their conversions.
use crate::bytecode::immediate::F64Const32;
use crate::bytecode::provider::{Provider, TypedProvider, UntypedProvider};
use crate::float::{
    exponent32, exponent64, fraction32, fraction64, lemma_narrow_is_unique, lemma_same_fields,
    lemma_same_magnitude, narrow, narrowed, same_number, sign32, sign64,
};
use crate::func_type::FuncType;
use crate::value::{TypedValue, UntypedValue, ValueType, F32, F64};
use vstd::arithmetic::power2::pow2;
use vstd::prelude::*;

verus! {

/// The integer that is congruent to `value` and needs `modulus` values: negative
/// numbers wrap around.
pub open spec fn wrapped(value: int, modulus: int) -> int {
    if value < 0 {
        value + modulus
    } else {
        value
    }
}

/// Untyped values have the bits of the number that they are made of. Numbers of 32
/// bits leave the high half zero.
pub proof fn lemma_untyped_values_have_the_bits(
    a: i32,
    b: i64,
    c: F32,
    d: F64,
    values: (UntypedValue, UntypedValue, UntypedValue, UntypedValue),
)
    requires
        call_ensures(<UntypedValue as From<i32>>::from, (a,), values.0),
        call_ensures(<UntypedValue as From<i64>>::from, (b,), values.1),
        call_ensures(<UntypedValue as From<F32>>::from, (c,), values.2),
        call_ensures(<UntypedValue as From<F64>>::from, (d,), values.3),
    ensures
        values.0.bits == wrapped(a as int, 0x1_0000_0000),
        values.1.bits == wrapped(b as int, 0x1_0000_0000_0000_0000),
        values.2.bits == c.bits,
        values.3.bits == d.bits,
{
    assert(a < 0 ==> (a as u32) == a + 0x1_0000_0000) by (bit_vector);
    assert(a >= 0 ==> (a as u32) == a) by (bit_vector);
    assert(b < 0 ==> (b as u64) == b + 0x1_0000_0000_0000_0000) by (bit_vector);
    assert(b >= 0 ==> (b as u64) == b) by (bit_vector);
}

/// Typed values have the type and the bits of the number that they are made of.
pub proof fn lemma_typed_values_have_type_and_bits(
    a: i32,
    b: i64,
    c: F32,
    d: F64,
    values: (TypedValue, TypedValue, TypedValue, TypedValue),
)
    requires
        call_ensures(<TypedValue as From<i32>>::from, (a,), values.0),
        call_ensures(<TypedValue as From<i64>>::from, (b,), values.1),
        call_ensures(<TypedValue as From<F32>>::from, (c,), values.2),
        call_ensures(<TypedValue as From<F64>>::from, (d,), values.3),
    ensures
        values.0.ty is I32,
        values.0.value.bits == wrapped(a as int, 0x1_0000_0000),
        values.1.ty is I64,
        values.1.value.bits == wrapped(b as int, 0x1_0000_0000_0000_0000),
        values.2.ty is F32,
        values.2.value.bits == c.bits,
        values.3.ty is F64,
        values.3.value.bits == d.bits,
{
    assert(a < 0 ==> (a as u32) == a + 0x1_0000_0000) by (bit_vector);
    assert(a >= 0 ==> (a as u32) == a) by (bit_vector);
    assert(b < 0 ==> (b as u64) == b + 0x1_0000_0000_0000_0000) by (bit_vector);
    assert(b >= 0 ==> (b as u64) == b) by (bit_vector);
}

/// Reading a typed value reads its bits. Numbers of 32 bits are read from the low
/// half.
pub proof fn lemma_typed_values_are_read_by_their_bits(
    value: TypedValue,
    a: i32,
    b: i64,
    c: F32,
    d: F64,
    untyped: UntypedValue,
)
    requires
        call_ensures(<i32 as From<TypedValue>>::from, (value,), a),
        call_ensures(<i64 as From<TypedValue>>::from, (value,), b),
        call_ensures(<F32 as From<TypedValue>>::from, (value,), c),
        call_ensures(<F64 as From<TypedValue>>::from, (value,), d),
        call_ensures(<UntypedValue as From<TypedValue>>::from, (value,), untyped),
    ensures
        wrapped(a as int, 0x1_0000_0000) == value.value.bits as int % 0x1_0000_0000,
        wrapped(b as int, 0x1_0000_0000_0000_0000) == value.value.bits,
        c.bits == value.value.bits as int % 0x1_0000_0000,
        d.bits == value.value.bits,
        untyped == value.value,
{
    let bits = value.value.bits;
    assert((bits as i32) < 0 ==> (bits as i32) + 0x1_0000_0000 == bits % 0x1_0000_0000)
        by (bit_vector);
    assert((bits as i32) >= 0 ==> (bits as i32) == bits % 0x1_0000_0000) by (bit_vector);
    assert((bits as i64) < 0 ==> (bits as i64) + 0x1_0000_0000_0000_0000 == bits) by (bit_vector);
    assert((bits as i64) >= 0 ==> (bits as i64) == bits) by (bit_vector);
    assert((bits as u32) == bits % 0x1_0000_0000) by (bit_vector);
}

/// A typed value has the type and the bits that it is created with, and tells
/// them.
pub proof fn lemma_typed_value_tells_its_parts(
    ty: ValueType,
    value: UntypedValue,
    typed: TypedValue,
    told: ValueType,
    bits: u64,
)
    requires
        call_ensures(TypedValue::new, (ty, value), typed),
        call_ensures(TypedValue::ty, (&typed,), told),
        call_ensures(UntypedValue::to_bits, (value,), bits),
    ensures
        typed.ty == ty,
        typed.value == value,
        told == ty,
        bits == value.bits,
{
}

/// Dropping the type of a provider keeps its register or its bits.
pub proof fn lemma_untyped_provider_keeps_its_value(
    provider: TypedProvider,
    untyped: UntypedProvider,
)
    requires
        call_ensures(TypedProvider::into_untyped, (provider,), untyped),
    ensures
        match (provider, untyped) {
            (Provider::Register(a), Provider::Register(b)) => a == b,
            (Provider::Const(a), Provider::Const(b)) => b == a.value,
            _ => false,
        },
{
}

/// A function type has the parameters and results that it is created with.
pub proof fn lemma_func_type_has_its_parts(
    params: Vec<ValueType>,
    results: Vec<ValueType>,
    func_type: FuncType,
    parts: (&[ValueType], &[ValueType]),
)
    requires
        call_ensures(FuncType::new, (params, results), func_type),
        call_ensures(FuncType::params_results, (&func_type,), parts),
    ensures
        parts.0@ == params@,
        parts.1@ == results@,
{
}

/// The number with the given sign, exponent and fraction fields, in a format whose
/// fields start at the given units.
pub open spec fn from_fields(
    sign: int,
    sign_unit: int,
    exponent: int,
    exponent_unit: int,
    fraction: int,
) -> int {
    sign * sign_unit + exponent * exponent_unit + fraction
}

/// The fields of a 32 bit encoding.
proof fn lemma_fields_of_narrow(narrow: u32, sign: int, exponent: int, fraction: int)
    requires
        0 <= sign <= 1,
        0 <= exponent <= 0xff,
        0 <= fraction < 0x80_0000,
        narrow == from_fields(sign, 0x8000_0000, exponent, 0x80_0000, fraction),
    ensures
        sign32(narrow) == sign,
        exponent32(narrow) == exponent,
        fraction32(narrow) == fraction,
{
}

/// The fields of a 64 bit encoding.
proof fn lemma_fields_of_wide(wide: u64, sign: int, exponent: int, fraction: int)
    requires
        0 <= sign <= 1,
        0 <= exponent <= 0x7ff,
        0 <= fraction < 0x10_0000_0000_0000,
        wide == from_fields(
            sign,
            0x8000_0000_0000_0000,
            exponent,
            0x10_0000_0000_0000,
            fraction,
        ),
    ensures
        sign64(wide) == sign,
        exponent64(wide) == exponent,
        fraction64(wide) == fraction,
{
}

/// Narrowing gives the one 32 bit encoding of the number.
proof fn lemma_narrow_finds(found: u32, wide: u64, result: Option<u32>)
    requires
        same_number(found, wide),
        call_ensures(narrow, (wide,), result),
    ensures
        result == Some(found),
{
    lemma_narrow_is_unique(found, narrowed(wide)->Some_0, wide);
}

/// Normal 32 bit floats are found among the 64 bit floats: the bias of the
/// exponent grows from 127 to 1023, and the fraction gets 29 more low bits, which
/// are zero.
pub proof fn lemma_normal_floats_are_narrowed(
    sign: int,
    exponent: int,
    fraction: int,
    small: u32,
    wide: u64,
    result: Option<u32>,
)
    requires
        0 <= sign <= 1,
        1 <= exponent <= 254,
        0 <= fraction < 0x80_0000,
        small == from_fields(sign, 0x8000_0000, exponent, 0x80_0000, fraction),
        wide == from_fields(
            sign,
            0x8000_0000_0000_0000,
            exponent - 127 + 1023,
            0x10_0000_0000_0000,
            fraction * 0x2000_0000,
        ),
        call_ensures(narrow, (wide,), result),
    ensures
        result == Some(small),
{
    lemma_fields_of_narrow(small, sign, exponent, fraction);
    lemma_fields_of_wide(wide, sign, exponent + 896, fraction * 0x2000_0000);
    lemma_same_magnitude(exponent, fraction, exponent + 896, fraction * 0x2000_0000);
    lemma_narrow_finds(small, wide, result);
}

/// Zeros, infinities and quiet NaNs of either sign are found among the 64 bit
/// floats.
pub proof fn lemma_special_floats_are_narrowed(
    sign: int,
    fraction: int,
    zeros: (u32, u64, Option<u32>),
    infinities: (u32, u64, Option<u32>),
    nans: (u32, u64, Option<u32>),
)
    requires
        0 <= sign <= 1,
        0x40_0000 <= fraction < 0x80_0000,
        zeros.0 == from_fields(sign, 0x8000_0000, 0, 0x80_0000, 0),
        zeros.1 == from_fields(sign, 0x8000_0000_0000_0000, 0, 0x10_0000_0000_0000, 0),
        infinities.0 == from_fields(sign, 0x8000_0000, 0xff, 0x80_0000, 0),
        infinities.1 == from_fields(sign, 0x8000_0000_0000_0000, 0x7ff, 0x10_0000_0000_0000, 0),
        nans.0 == from_fields(sign, 0x8000_0000, 0xff, 0x80_0000, fraction),
        nans.1 == from_fields(
            sign,
            0x8000_0000_0000_0000,
            0x7ff,
            0x10_0000_0000_0000,
            fraction * 0x2000_0000,
        ),
        call_ensures(narrow, (zeros.1,), zeros.2),
        call_ensures(narrow, (infinities.1,), infinities.2),
        call_ensures(narrow, (nans.1,), nans.2),
    ensures
        zeros.2 == Some(zeros.0),
        infinities.2 == Some(infinities.0),
        nans.2 == Some(nans.0),
{
    lemma_fields_of_narrow(zeros.0, sign, 0, 0);
    lemma_fields_of_wide(zeros.1, sign, 0, 0);
    lemma_same_magnitude(0, 0, 0, 0);
    lemma_narrow_finds(zeros.0, zeros.1, zeros.2);
    lemma_fields_of_narrow(infinities.0, sign, 0xff, 0);
    lemma_fields_of_wide(infinities.1, sign, 0x7ff, 0);
    lemma_narrow_finds(infinities.0, infinities.1, infinities.2);
    lemma_fields_of_narrow(nans.0, sign, 0xff, fraction);
    lemma_fields_of_wide(nans.1, sign, 0x7ff, fraction * 0x2000_0000);
    lemma_narrow_finds(nans.0, nans.1, nans.2);
}

/// Subnormal 32 bit floats are found among the 64 bit floats, where they are
/// normal: the significand of the 64 bit float is the fraction, shifted.
pub proof fn lemma_subnormal_floats_are_narrowed(
    sign: int,
    small_fraction: int,
    exponent: int,
    fraction: int,
    small: u32,
    wide: u64,
    result: Option<u32>,
)
    requires
        0 <= sign <= 1,
        0 < small_fraction < 0x80_0000,
        874 <= exponent <= 896,
        0 <= fraction < 0x10_0000_0000_0000,
        fraction + 0x10_0000_0000_0000 == small_fraction * pow2((926 - exponent) as nat),
        small == from_fields(sign, 0x8000_0000, 0, 0x80_0000, small_fraction),
        wide == from_fields(
            sign,
            0x8000_0000_0000_0000,
            exponent,
            0x10_0000_0000_0000,
            fraction,
        ),
        call_ensures(narrow, (wide,), result),
    ensures
        result == Some(small),
{
    lemma_fields_of_narrow(small, sign, 0, small_fraction);
    lemma_fields_of_wide(wide, sign, exponent, fraction);
    lemma_same_magnitude(0, small_fraction, exponent, fraction);
    lemma_narrow_finds(small, wide, result);
}

/// All other 64 bit floats are not 32 bit floats: what is narrowed has one of the
/// forms of a normal, special or subnormal 32 bit float, with the same sign.
pub proof fn lemma_only_narrow_floats_are_narrowed(wide: u64, result: Option<u32>)
    requires
        call_ensures(narrow, (wide,), result),
    ensures
        result matches Some(small) ==> {
            let sign = small as int / 0x8000_0000;
            let small_exponent = small as int / 0x80_0000 % 0x100;
            let small_fraction = small as int % 0x80_0000;
            let exponent = wide as int / 0x10_0000_0000_0000 % 0x800;
            let fraction = wide as int % 0x10_0000_0000_0000;
            &&& sign == wide as int / 0x8000_0000_0000_0000
            &&& if small_exponent == 0xff {
                &&& exponent == 0x7ff
                &&& fraction == small_fraction * 0x2000_0000
                &&& fraction == 0 || small_fraction >= 0x40_0000
            } else if small_exponent != 0 {
                &&& exponent == small_exponent - 127 + 1023
                &&& fraction == small_fraction * 0x2000_0000
            } else if small_fraction == 0 {
                exponent == 0 && fraction == 0
            } else {
                &&& 874 <= exponent <= 896
                &&& fraction + 0x10_0000_0000_0000 == small_fraction * pow2(
                    (926 - exponent) as nat,
                )
            }
        },
{
    if let Some(small) = result {
        assert(same_number(small, wide));
        if exponent32(small) != 0xff {
            lemma_same_fields(
                exponent32(small),
                fraction32(small),
                exponent64(wide),
                fraction64(wide),
            );
        }
    }
}

/// A 64 bit float is a 32 bit constant if and only if narrowing finds its 32 bit
/// encoding, which the constant then has.
pub proof fn lemma_narrow_floats_are_const32(
    value: F64,
    result: Option<F64Const32>,
    found: Option<u32>,
)
    requires
        call_ensures(F64Const32::from_f64, (value,), result),
        call_ensures(narrow, (value.bits,), found),
    ensures
        match (result, found) {
            (Some(constant), Some(small)) => constant.bits == small,
            (None, None) => true,
            _ => false,
        },
{
}

} // verus!
