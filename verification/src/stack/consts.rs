//! The function local constant values.
use crate::bytecode::register::Register;
use crate::error::{TranslationError, TranslationErrorInner};
use crate::value::UntypedValue;
use std::collections::BTreeMap;
use vstd::prelude::*;

verus! {

broadcast use vstd::std_specs::btree::group_btree_axioms;

/// Whether `value` has a register or can get one.
pub open spec fn can_intern(consts: Seq<UntypedValue>, value: UntypedValue) -> bool {
    consts.contains(value) || consts.len() < i16::MAX
}

/// The constant values once `value` is among them.
pub open spec fn interned(consts: Seq<UntypedValue>, value: UntypedValue) -> Seq<UntypedValue> {
    if consts.contains(value) {
        consts
    } else {
        consts.push(value)
    }
}

/// The register of the constant value with the given place in allocation order.
pub open spec fn register_of_place(place: int) -> Register {
    Register::at(-1 - place)
}

/// The register of an allocated constant value.
pub open spec fn const_register(consts: Seq<UntypedValue>, value: UntypedValue) -> Register
    recommends
        consts.contains(value),
{
    register_of_place(consts.index_of(value))
}

/// Whether `consts` are constant values as they can be allocated: all different
/// and each with a register.
pub open spec fn consts_valid(consts: Seq<UntypedValue>) -> bool {
    &&& consts.no_duplicates()
    &&& consts.len() <= i16::MAX
}

/// The error of an exhausted constant value space.
pub open spec fn too_many_consts() -> TranslationError {
    TranslationError::of(TranslationErrorInner::TooManyFuncLocalConstValues)
}

/// The constant values of a function, each with a register of its own.
#[derive(Debug)]
pub struct FuncLocalConsts {
    /// The register of each constant value, by the bits of the value.
    const2idx: BTreeMap<u64, Register>,
    /// The constant values in allocation order.
    idx2const: Vec<UntypedValue>,
}

impl View for FuncLocalConsts {
    type V = Seq<UntypedValue>;

    /// The constant values in allocation order.
    closed spec fn view(&self) -> Seq<UntypedValue> {
        self.idx2const@
    }
}

impl Default for FuncLocalConsts {
    fn default() -> (consts: Self)
        ensures
            consts.wf(),
            consts@ == Seq::<UntypedValue>::empty(),
    {
        FuncLocalConsts { const2idx: BTreeMap::new(), idx2const: Vec::new() }
    }
}

impl FuncLocalConsts {
    /// The map and the list agree.
    pub closed spec fn inv(&self) -> bool {
        &&& forall|i: int|
            0 <= i < self.idx2const@.len() ==> {
                let bits = (#[trigger] self.idx2const@[i]).bits;
                self.const2idx@.contains_key(bits) && self.const2idx@[bits] == register_of_place(i)
            }
        &&& forall|bits: u64| #[trigger]
            self.const2idx@.contains_key(bits) ==> {
                let place = -1 - self.const2idx@[bits].index;
                0 <= place < self.idx2const@.len() && self.idx2const@[place].bits == bits
            }
    }

    /// The values are all different and the lookup structure is in order.
    pub open spec fn wf(&self) -> bool {
        &&& self.inv()
        &&& consts_valid(self@)
    }

    /// Removes all constant values.
    pub fn reset(&mut self)
        ensures
            final(self).wf(),
            final(self)@ == Seq::<UntypedValue>::empty(),
    {
        self.const2idx.clear();
        self.idx2const.clear();
    }

    /// Allocates a constant value and returns its register.
    ///
    /// A value that is already allocated keeps its register.
    ///
    /// # Errors
    ///
    /// If too many constant values are allocated.
    pub fn alloc_const(&mut self, value: UntypedValue) -> (result: Result<Register, TranslationError>)
        requires
            old(self).wf(),
        ensures
            final(self).wf(),
            if can_intern(old(self)@, value) {
                &&& final(self)@ == interned(old(self)@, value)
                &&& result == Ok::<Register, TranslationError>(const_register(final(self)@, value))
            } else {
                &&& final(self)@ == old(self)@
                &&& result == Err::<Register, TranslationError>(too_many_consts())
            },
    {
        if let Some(register) = self.const2idx.get(&value.bits) {
            let register = *register;
            proof {
                let place = -1 - register.index;
                assert(self.idx2const@[place] == value);
                assert(self@.index_of(value) == place);
            }
            return Ok(register);
        }
        assert(!self@.contains(value));
        let len: usize = self.idx2const.len();
        if len >= i16::MAX as usize {
            return Err(TranslationError::new(TranslationErrorInner::TooManyFuncLocalConstValues));
        }
        let register = Register::from_i16(-1 - len as i16);
        self.const2idx.insert(value.bits, register);
        self.idx2const.push(value);
        proof {
            assert(self@[len as int] == value);
            assert(self@.index_of(value) == len);
        }
        Ok(register)
    }

    /// Returns the number of constant values.
    pub fn len_consts(&self) -> (len: u16)
        requires
            self.wf(),
        ensures
            len == self@.len(),
    {
        self.idx2const.len() as u16
    }

    /// Returns an iterator over the constant values in reversed allocation order.
    pub fn iter(&self) -> (iter: FuncLocalConstsIter<'_>)
        ensures
            iter.wf(),
            iter@ == self@.reverse(),
    {
        assert(self.idx2const@.take(self.idx2const@.len() as int) =~= self.idx2const@);
        FuncLocalConstsIter { consts: &self.idx2const, remaining: self.idx2const.len() }
    }
}

/// An iterator over constant values in reversed allocation order.
#[derive(Debug)]
pub struct FuncLocalConstsIter<'a> {
    /// The constant values in allocation order.
    consts: &'a Vec<UntypedValue>,
    /// How many of them are still to come.
    remaining: usize,
}

impl<'a> View for FuncLocalConstsIter<'a> {
    type V = Seq<UntypedValue>;

    /// The values that are still to come.
    closed spec fn view(&self) -> Seq<UntypedValue> {
        self.consts@.take(self.remaining as int).reverse()
    }
}

impl<'a> FuncLocalConstsIter<'a> {
    /// No more values are to come than there are.
    pub closed spec fn wf(&self) -> bool {
        self.remaining <= self.consts@.len()
    }

    /// Returns the next value and advances the iterator.
    pub fn next(&mut self) -> (result: Option<UntypedValue>)
        requires
            old(self).wf(),
        ensures
            final(self).wf(),
            match result {
                Some(value) => old(self)@.len() > 0 && value == old(self)@[0] && final(self)@
                    == old(self)@.drop_first(),
                None => old(self)@.len() == 0 && final(self)@ == old(self)@,
            },
    {
        if self.remaining == 0 {
            return None;
        }
        self.remaining = self.remaining - 1;
        assert(self@ =~= old(self)@.drop_first());
        Some(self.consts[self.remaining])
    }
}

/// A constant value that is already allocated is not allocated again: its
/// register is shared and nothing changes.
pub proof fn lemma_consts_are_deduplicated(consts: Seq<UntypedValue>, value: UntypedValue)
    requires
        can_intern(consts, value),
    ensures
        can_intern(interned(consts, value), value),
        interned(interned(consts, value), value) == interned(consts, value),
{
    if !consts.contains(value) {
        assert(consts.push(value)[consts.len() as int] == value);
    }
}

/// Allocating a constant value leaves the registers of the others as they are,
/// and keeps the values valid.
pub proof fn lemma_const_registers_are_stable(
    consts: Seq<UntypedValue>,
    value: UntypedValue,
    other: UntypedValue,
)
    requires
        consts_valid(consts),
        can_intern(consts, value),
        consts.contains(other),
    ensures
        consts_valid(interned(consts, value)),
        interned(consts, value).contains(other),
        const_register(interned(consts, value), other) == const_register(consts, other),
{
    let new = interned(consts, value);
    let place = consts.index_of(other);
    assert(new[place] == other);
    assert(new.no_duplicates());
    assert(new.index_of(other) == place);
}

/// Different constant values have different registers, all of them negative.
pub proof fn lemma_const_registers_are_distinct(
    consts: Seq<UntypedValue>,
    a: UntypedValue,
    b: UntypedValue,
)
    requires
        consts_valid(consts),
        consts.contains(a),
        consts.contains(b),
    ensures
        const_register(consts, a).index < 0,
        const_register(consts, a) == const_register(consts, b) ==> a == b,
{
}

/// The register of a constant value tells its place: register `-1` is the first
/// allocated value, and in reversed allocation order the value with register
/// `-k` is the `k`-th from the end.
pub proof fn lemma_const_register_is_place(consts: Seq<UntypedValue>, value: UntypedValue)
    requires
        consts_valid(consts),
        consts.contains(value),
    ensures
        ({
            let k = -const_register(consts, value).index;
            &&& 1 <= k <= consts.len()
            &&& consts[k - 1] == value
            &&& consts.reverse()[consts.len() - k] == value
        }),
{
}

} // verus!
