//! Values of a WebAssembly function as the translation sees them.
//!
//! A value is 64 bits wide. Values of 32 bit types sit in the low half and
//! leave the high half zero.
use vstd::prelude::*;
use vstd::std_specs::convert::FromSpec;
use vstd::std_specs::convert::FromSpecImpl;

verus! {

/// The type of a WebAssembly value.
#[derive(Debug, Clone, Copy, PartialEq, Eq, Structural)]
pub enum ValueType {
    /// A 32 bit integer.
    I32,
    /// A 64 bit integer.
    I64,
    /// A 32 bit floating point number.
    F32,
    /// A 64 bit floating point number.
    F64,
    /// A nullable function reference.
    FuncRef,
    /// A nullable external reference.
    ExternRef,
}

impl ValueType {
    /// Whether values of this type are 32 bits wide.
    pub open spec fn is_32_bit(self) -> bool {
        self is I32 || self is F32
    }
}

/// A 32 bit floating point number, given by its bits.
#[derive(Debug, Clone, Copy, PartialEq, Eq, Structural)]
pub struct F32 {
    /// The IEEE 754 encoding of the number.
    pub bits: u32,
}

/// A 64 bit floating point number, given by its bits.
#[derive(Debug, Clone, Copy, PartialEq, Eq, Structural)]
pub struct F64 {
    /// The IEEE 754 encoding of the number.
    pub bits: u64,
}

/// The bits of a value without its type.
#[derive(Debug, Clone, Copy, PartialEq, Eq, Structural)]
pub struct UntypedValue {
    /// The bits.
    pub bits: u64,
}

/// A value with its type.
#[derive(Debug, Clone, Copy, PartialEq, Eq, Structural)]
pub struct TypedValue {
    /// The type of the value.
    pub ty: ValueType,
    /// The bits of the value.
    pub value: UntypedValue,
}

/// Returns the untyped bits of an `i32`.
///
/// Calls `<wasmi_core::UntypedValue as From<i32>>::from`, which is trusted to
/// reinterpret the integer as unsigned and to zero extend it.
#[verifier::external_body]
fn untyped_from_i32(value: i32) -> (bits: u64)
    ensures
        bits == value as u32 as u64,
{
    wasmi_core::UntypedValue::from(value).to_bits()
}

/// Returns the untyped bits of an `i64`.
///
/// Calls `<wasmi_core::UntypedValue as From<i64>>::from`, which is trusted to
/// reinterpret the integer as unsigned.
#[verifier::external_body]
fn untyped_from_i64(value: i64) -> (bits: u64)
    ensures
        bits == value as u64,
{
    wasmi_core::UntypedValue::from(value).to_bits()
}

/// Returns the untyped bits of the 32 bit float with the given encoding.
///
/// Calls `<wasmi_core::UntypedValue as From<wasmi_core::F32>>::from`, which is
/// trusted to zero extend the encoding.
#[verifier::external_body]
fn untyped_from_f32(encoding: u32) -> (bits: u64)
    ensures
        bits == encoding as u64,
{
    wasmi_core::UntypedValue::from(wasmi_core::F32::from_bits(encoding)).to_bits()
}

/// Returns the untyped bits of the 64 bit float with the given encoding.
///
/// Calls `<wasmi_core::UntypedValue as From<wasmi_core::F64>>::from`, which is
/// trusted to keep the encoding as it is.
#[verifier::external_body]
fn untyped_from_f64(encoding: u64) -> (bits: u64)
    ensures
        bits == encoding,
{
    wasmi_core::UntypedValue::from(wasmi_core::F64::from_bits(encoding)).to_bits()
}

/// Reads untyped bits as an `i32`.
///
/// Calls `<i32 as From<wasmi_core::UntypedValue>>::from`, which is trusted to
/// keep the low 32 bits.
#[verifier::external_body]
fn untyped_to_i32(bits: u64) -> (value: i32)
    ensures
        value == bits as i32,
{
    i32::from(wasmi_core::UntypedValue::from(bits))
}

/// Reads untyped bits as an `i64`.
///
/// Calls `<i64 as From<wasmi_core::UntypedValue>>::from`, which is trusted to
/// reinterpret the bits as signed.
#[verifier::external_body]
fn untyped_to_i64(bits: u64) -> (value: i64)
    ensures
        value == bits as i64,
{
    i64::from(wasmi_core::UntypedValue::from(bits))
}

/// Reads untyped bits as the encoding of a 32 bit float.
///
/// Calls `<wasmi_core::F32 as From<wasmi_core::UntypedValue>>::from`, which is
/// trusted to keep the low 32 bits.
#[verifier::external_body]
fn untyped_to_f32(bits: u64) -> (encoding: u32)
    ensures
        encoding == bits as u32,
{
    wasmi_core::F32::from(wasmi_core::UntypedValue::from(bits)).to_bits()
}

/// Reads untyped bits as the encoding of a 64 bit float.
///
/// Calls `<wasmi_core::F64 as From<wasmi_core::UntypedValue>>::from`, which is
/// trusted to keep all bits.
#[verifier::external_body]
fn untyped_to_f64(bits: u64) -> (encoding: u64)
    ensures
        encoding == bits,
{
    wasmi_core::F64::from(wasmi_core::UntypedValue::from(bits)).to_bits()
}

/// Specifies the conversion of a type into itself.
///
/// The blanket `impl From<T> for T` of the standard library returns its
/// argument unchanged.
pub assume_specification<A>[ <A as std::convert::From<A>>::from ](value: A) -> (result: A)
    ensures
        result == value,
;

impl UntypedValue {
    /// Returns the bits of the value.
    pub fn to_bits(self) -> (bits: u64)
        ensures
            bits == self.bits,
    {
        self.bits
    }
}

impl From<i32> for UntypedValue {
    fn from(value: i32) -> (result: Self) {
        UntypedValue { bits: untyped_from_i32(value) }
    }
}

impl FromSpecImpl<i32> for UntypedValue {
    open spec fn obeys_from_spec() -> bool {
        true
    }

    open spec fn from_spec(value: i32) -> Self {
        UntypedValue { bits: value as u32 as u64 }
    }
}

impl From<i64> for UntypedValue {
    fn from(value: i64) -> (result: Self) {
        UntypedValue { bits: untyped_from_i64(value) }
    }
}

impl FromSpecImpl<i64> for UntypedValue {
    open spec fn obeys_from_spec() -> bool {
        true
    }

    open spec fn from_spec(value: i64) -> Self {
        UntypedValue { bits: value as u64 }
    }
}

impl From<F32> for UntypedValue {
    fn from(value: F32) -> (result: Self) {
        UntypedValue { bits: untyped_from_f32(value.bits) }
    }
}

impl FromSpecImpl<F32> for UntypedValue {
    open spec fn obeys_from_spec() -> bool {
        true
    }

    open spec fn from_spec(value: F32) -> Self {
        UntypedValue { bits: value.bits as u64 }
    }
}

impl From<F64> for UntypedValue {
    fn from(value: F64) -> (result: Self) {
        UntypedValue { bits: untyped_from_f64(value.bits) }
    }
}

impl FromSpecImpl<F64> for UntypedValue {
    open spec fn obeys_from_spec() -> bool {
        true
    }

    open spec fn from_spec(value: F64) -> Self {
        UntypedValue { bits: value.bits }
    }
}

impl From<TypedValue> for UntypedValue {
    fn from(value: TypedValue) -> (result: Self) {
        value.value
    }
}

impl FromSpecImpl<TypedValue> for UntypedValue {
    open spec fn obeys_from_spec() -> bool {
        true
    }

    open spec fn from_spec(value: TypedValue) -> Self {
        value.value
    }
}

impl TypedValue {
    /// Whether the bits are those of a value of the type: a 32 bit type leaves
    /// the high half zero.
    pub open spec fn wf(self) -> bool {
        self.ty.is_32_bit() ==> self.value.bits <= u32::MAX
    }

    /// Creates a value of the given type from its bits.
    pub fn new(ty: ValueType, value: UntypedValue) -> (result: Self)
        ensures
            result == (TypedValue { ty, value }),
    {
        TypedValue { ty, value }
    }

    /// Returns the type of the value.
    pub fn ty(&self) -> (ty: ValueType)
        ensures
            ty == self.ty,
    {
        self.ty
    }
}

impl From<i32> for TypedValue {
    fn from(value: i32) -> (result: Self) {
        TypedValue { ty: ValueType::I32, value: UntypedValue::from(value) }
    }
}

impl FromSpecImpl<i32> for TypedValue {
    open spec fn obeys_from_spec() -> bool {
        true
    }

    open spec fn from_spec(value: i32) -> Self {
        TypedValue { ty: ValueType::I32, value: UntypedValue { bits: value as u32 as u64 } }
    }
}

impl From<i64> for TypedValue {
    fn from(value: i64) -> (result: Self) {
        TypedValue { ty: ValueType::I64, value: UntypedValue::from(value) }
    }
}

impl FromSpecImpl<i64> for TypedValue {
    open spec fn obeys_from_spec() -> bool {
        true
    }

    open spec fn from_spec(value: i64) -> Self {
        TypedValue { ty: ValueType::I64, value: UntypedValue { bits: value as u64 } }
    }
}

impl From<F32> for TypedValue {
    fn from(value: F32) -> (result: Self) {
        TypedValue { ty: ValueType::F32, value: UntypedValue::from(value) }
    }
}

impl FromSpecImpl<F32> for TypedValue {
    open spec fn obeys_from_spec() -> bool {
        true
    }

    open spec fn from_spec(value: F32) -> Self {
        TypedValue { ty: ValueType::F32, value: UntypedValue { bits: value.bits as u64 } }
    }
}

impl From<F64> for TypedValue {
    fn from(value: F64) -> (result: Self) {
        TypedValue { ty: ValueType::F64, value: UntypedValue::from(value) }
    }
}

impl FromSpecImpl<F64> for TypedValue {
    open spec fn obeys_from_spec() -> bool {
        true
    }

    open spec fn from_spec(value: F64) -> Self {
        TypedValue { ty: ValueType::F64, value: UntypedValue { bits: value.bits } }
    }
}

impl From<TypedValue> for i32 {
    fn from(value: TypedValue) -> (result: Self) {
        untyped_to_i32(value.value.bits)
    }
}

impl FromSpecImpl<TypedValue> for i32 {
    open spec fn obeys_from_spec() -> bool {
        true
    }

    open spec fn from_spec(value: TypedValue) -> Self {
        value.value.bits as i32
    }
}

impl From<TypedValue> for i64 {
    fn from(value: TypedValue) -> (result: Self) {
        untyped_to_i64(value.value.bits)
    }
}

impl FromSpecImpl<TypedValue> for i64 {
    open spec fn obeys_from_spec() -> bool {
        true
    }

    open spec fn from_spec(value: TypedValue) -> Self {
        value.value.bits as i64
    }
}

impl From<TypedValue> for F32 {
    fn from(value: TypedValue) -> (result: Self) {
        F32 { bits: untyped_to_f32(value.value.bits) }
    }
}

impl FromSpecImpl<TypedValue> for F32 {
    open spec fn obeys_from_spec() -> bool {
        true
    }

    open spec fn from_spec(value: TypedValue) -> Self {
        F32 { bits: value.value.bits as u32 }
    }
}

impl From<TypedValue> for F64 {
    fn from(value: TypedValue) -> (result: Self) {
        F64 { bits: untyped_to_f64(value.value.bits) }
    }
}

impl FromSpecImpl<TypedValue> for F64 {
    open spec fn obeys_from_spec() -> bool {
        true
    }

    open spec fn from_spec(value: TypedValue) -> Self {
        F64 { bits: value.value.bits }
    }
}

/// Making a typed value of a number gives a well formed value, and reading it
/// gives the number back.
pub proof fn lemma_typed_value_round_trip(a: i32, b: i64, c: F32, d: F64)
    ensures
        <TypedValue as FromSpec<i32>>::from_spec(a).wf(),
        <TypedValue as FromSpec<i64>>::from_spec(b).wf(),
        <TypedValue as FromSpec<F32>>::from_spec(c).wf(),
        <TypedValue as FromSpec<F64>>::from_spec(d).wf(),
        <i32 as FromSpec<TypedValue>>::from_spec(<TypedValue as FromSpec<i32>>::from_spec(a)) == a,
        <i64 as FromSpec<TypedValue>>::from_spec(<TypedValue as FromSpec<i64>>::from_spec(b)) == b,
        <F32 as FromSpec<TypedValue>>::from_spec(<TypedValue as FromSpec<F32>>::from_spec(c)) == c,
        <F64 as FromSpec<TypedValue>>::from_spec(<TypedValue as FromSpec<F64>>::from_spec(d)) == d,
{
    assert((a as u32 as u64) as i32 == a) by (bit_vector);
    assert((b as u64) as i64 == b) by (bit_vector);
}

} // verus!
