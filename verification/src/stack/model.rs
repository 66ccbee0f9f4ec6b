//! What the value stack is, mathematically, and what its operations make of it.
use crate::bytecode::provider::{Provider, TypedProvider};
use crate::bytecode::register::{register_range, Register};
use crate::error::TranslationError;
use crate::stack::consts::{can_intern, const_register, consts_valid, interned, too_many_consts};
use crate::stack::provider::{count_dynamic, lemma_count_dynamic_add, untagged_all, TaggedProvider};
use crate::stack::register_alloc::{too_many_registers, RegisterAllocView};
use crate::value::UntypedValue;
use vstd::prelude::*;

verus! {

/// The constant values and registers that come from turning providers into
/// registers.
#[verifier::ext_equal]
pub struct InternedProviders {
    /// The constant values afterwards.
    pub consts: Seq<UntypedValue>,
    /// The registers, up to the first provider that could not be turned into one.
    pub registers: Seq<Register>,
    /// Whether every provider has a register.
    pub complete: bool,
}

/// Turns `providers` into registers, one after the other. A constant value gets
/// the register of a function local constant value. The first constant value
/// for which there is none left ends it.
pub open spec fn intern_all(
    consts: Seq<UntypedValue>,
    providers: Seq<TypedProvider>,
) -> InternedProviders
    decreases providers.len(),
{
    if providers.len() == 0 {
        InternedProviders { consts, registers: Seq::empty(), complete: true }
    } else {
        let before = intern_all(consts, providers.drop_last());
        if !before.complete {
            before
        } else {
            match providers.last() {
                Provider::Register(register) => InternedProviders {
                    registers: before.registers.push(register),
                    ..before
                },
                Provider::Const(value) => if can_intern(before.consts, value.value) {
                    let consts = interned(before.consts, value.value);
                    InternedProviders {
                        consts,
                        registers: before.registers.push(const_register(consts, value.value)),
                        complete: true,
                    }
                } else {
                    InternedProviders { complete: false, ..before }
                },
            }
        }
    }
}

impl InternedProviders {
    /// Success, or the error of the exhausted constant value space.
    pub open spec fn result(self) -> Result<(), TranslationError> {
        if self.complete {
            Ok(())
        } else {
            Err(too_many_consts())
        }
    }
}

/// The registers as dynamic providers.
pub open spec fn tagged_dynamic(registers: Seq<Register>) -> Seq<TaggedProvider> {
    registers.map_values(|register: Register| TaggedProvider::Dynamic(register))
}

/// A value stack.
#[verifier::ext_equal]
pub struct ValueStackView {
    /// The providers, with the top-most one last.
    pub providers: Seq<TaggedProvider>,
    /// The allocated registers.
    pub registers: RegisterAllocView,
    /// The function local constant values in allocation order.
    pub consts: Seq<UntypedValue>,
}

impl ValueStackView {
    /// The state of a new value stack.
    pub open spec fn initial() -> Self {
        ValueStackView {
            providers: Seq::empty(),
            registers: RegisterAllocView::initial(),
            consts: Seq::empty(),
        }
    }

    /// What holds of every value stack:
    ///
    /// - there is one allocated dynamic register for each dynamic provider;
    /// - the register of each dynamic provider is in dynamic space;
    /// - storage space is not in use;
    /// - the constant values are all different.
    pub open spec fn valid(self) -> bool {
        &&& self.registers.valid()
        &&& self.registers.no_storage()
        &&& self.registers.next_dynamic - self.registers.len_locals == count_dynamic(
            self.providers,
        )
        &&& forall|i: int|
            0 <= i < self.providers.len() ==> match #[trigger] self.providers[i] {
                TaggedProvider::Dynamic(register) => self.registers.is_dynamic(register),
                TaggedProvider::Storage(_) => false,
                _ => true,
            }
        &&& consts_valid(self.consts)
    }

    /// The number of providers on the stack.
    pub open spec fn height(self) -> nat {
        self.providers.len()
    }

    /// The number of registers that the function needs.
    pub open spec fn len_registers(self) -> int {
        self.consts.len() + self.registers.len_registers()
    }

    /// The `n` top-most providers, with the top-most one last.
    pub open spec fn top(self, n: int) -> Seq<TypedProvider> {
        untagged_all(self.providers.skip(self.height() - n))
    }

    /// The stack without the providers above the given height. The dynamic
    /// registers among those are freed.
    pub open spec fn truncated(self, height: int) -> Self {
        ValueStackView {
            providers: self.providers.take(height),
            registers: self.registers.pop_dynamic(
                count_dynamic(self.providers.skip(height)) as int,
            ),
            ..self
        }
    }

    /// The stack with `provider` on top. A dynamic provider comes with a newly
    /// allocated register.
    pub open spec fn pushed(self, provider: TaggedProvider) -> Self {
        ValueStackView {
            providers: self.providers.push(provider),
            registers: if provider is Dynamic {
                self.registers.push_dynamic(1)
            } else {
                self.registers
            },
            ..self
        }
    }

    /// The stack with `n` newly allocated dynamic registers on top.
    pub open spec fn pushed_dynamic(self, n: nat) -> Self {
        ValueStackView {
            providers: self.providers + tagged_dynamic(
                register_range(self.registers.next_dynamic, n),
            ),
            registers: self.registers.push_dynamic(n as int),
            ..self
        }
    }

    /// The stack after `n` dynamic registers were allocated and freed again.
    pub open spec fn peeked_dynamic(self, n: nat) -> Self {
        ValueStackView {
            registers: self.registers.push_dynamic(n as int).pop_dynamic(n as int),
            ..self
        }
    }

    /// Pushes a register: one in dynamic space counts as newly allocated, any other
    /// one as a local variable.
    pub open spec fn push_register(self, register: Register) -> (Self, Result<
        (),
        TranslationError,
    >) {
        if !self.registers.is_dynamic(register) {
            (self.pushed(TaggedProvider::Local(register)), Ok(()))
        } else if self.registers.can_push_dynamic(1) {
            (self.pushed(TaggedProvider::Dynamic(register)), Ok(()))
        } else {
            (self, Err(too_many_registers()))
        }
    }

    /// Pushes a provider that has no tag.
    pub open spec fn push_provider(self, provider: TypedProvider) -> (Self, Result<
        (),
        TranslationError,
    >) {
        match provider {
            Provider::Const(value) => (self.pushed(TaggedProvider::Const(value)), Ok(())),
            Provider::Register(register) => self.push_register(register),
        }
    }

    /// Whether the phase of the allocation lets `provider` be pushed: registers in
    /// dynamic space need the allocation phase.
    pub open spec fn can_take(self, provider: TypedProvider) -> bool {
        provider matches Provider::Register(register) && self.registers.is_dynamic(register)
            ==> self.registers.phase is Alloc
    }

    /// Pushes providers that have no tag, one after the other, until one cannot be
    /// pushed.
    pub open spec fn push_all(self, providers: Seq<TypedProvider>) -> (Self, Result<
        (),
        TranslationError,
    >)
        decreases providers.len(),
    {
        if providers.len() == 0 {
            (self, Ok(()))
        } else {
            let (before, result) = self.push_all(providers.drop_last());
            match result {
                Ok(_) => before.push_provider(providers.last()),
                Err(error) => (before, Err(error)),
            }
        }
    }

    /// Allocates a function local constant value.
    pub open spec fn alloc_const(self, value: UntypedValue) -> (Self, Result<
        Register,
        TranslationError,
    >) {
        if can_intern(self.consts, value) {
            let consts = interned(self.consts, value);
            (self.with_consts(consts), Ok(const_register(consts, value)))
        } else {
            (self, Err(too_many_consts()))
        }
    }

    /// The stack with other constant values.
    pub open spec fn with_consts(self, consts: Seq<UntypedValue>) -> Self {
        ValueStackView { consts, ..self }
    }

    /// Pops the top-most provider and turns it into a register.
    pub open spec fn pop_as_register(self) -> (Self, Result<Register, TranslationError>)
        recommends
            self.height() >= 1,
    {
        let popped = self.truncated(self.height() - 1);
        match self.providers.last().untagged() {
            Provider::Register(register) => (popped, Ok(register)),
            Provider::Const(value) => popped.alloc_const(value.value),
        }
    }

    /// Pops the two top-most providers and turns them into registers, the top-most
    /// one first.
    pub open spec fn pop2_as_registers(self) -> (Self, Result<
        (Register, Register),
        TranslationError,
    >)
        recommends
            self.height() >= 2,
    {
        let (popped, rhs) = self.pop_as_register();
        match rhs {
            Err(error) => (popped, Err(error)),
            Ok(rhs) => {
                let (popped, lhs) = popped.pop_as_register();
                match lhs {
                    Err(error) => (popped, Err(error)),
                    Ok(lhs) => (popped, Ok((lhs, rhs))),
                }
            },
        }
    }

    /// Pops the three top-most providers and turns them into registers, the
    /// top-most one first.
    pub open spec fn pop3_as_registers(self) -> (Self, Result<
        (Register, Register, Register),
        TranslationError,
    >)
        recommends
            self.height() >= 3,
    {
        let (popped, upper) = self.pop2_as_registers();
        match upper {
            Err(error) => (popped, Err(error)),
            Ok((v1, v2)) => {
                let (popped, v0) = popped.pop_as_register();
                match v0 {
                    Err(error) => (popped, Err(error)),
                    Ok(v0) => (popped, Ok((v0, v1, v2))),
                }
            },
        }
    }
}

/// Interning a longer list of providers starts with interning a shorter one.
pub proof fn lemma_intern_all_stops(
    consts: Seq<UntypedValue>,
    providers: Seq<TypedProvider>,
    n: int,
)
    requires
        0 <= n <= providers.len(),
        !intern_all(consts, providers.take(n)).complete,
    ensures
        intern_all(consts, providers) == intern_all(consts, providers.take(n)),
    decreases providers.len(),
{
    if n == providers.len() {
        assert(providers.take(n) =~= providers);
    } else {
        assert(providers.drop_last().take(n) =~= providers.take(n));
        lemma_intern_all_stops(consts, providers.drop_last(), n);
    }
}

/// Pushing a longer list of providers starts with pushing a shorter one.
pub proof fn lemma_push_all_stops(stack: ValueStackView, providers: Seq<TypedProvider>, n: int)
    requires
        0 <= n <= providers.len(),
        stack.push_all(providers.take(n)).1 is Err,
    ensures
        stack.push_all(providers) == stack.push_all(providers.take(n)),
    decreases providers.len(),
{
    if n == providers.len() {
        assert(providers.take(n) =~= providers);
    } else {
        assert(providers.drop_last().take(n) =~= providers.take(n));
        lemma_push_all_stops(stack, providers.drop_last(), n);
    }
}

/// Truncating twice is truncating to the smaller height.
pub proof fn lemma_truncated_twice(stack: ValueStackView, upper: int, lower: int)
    requires
        0 <= lower <= upper <= stack.height(),
    ensures
        stack.truncated(upper).truncated(lower) == stack.truncated(lower),
{
    let middle = stack.providers.take(upper).skip(lower);
    let above = stack.providers.skip(upper);
    assert(stack.providers.skip(lower) =~= middle + above);
    lemma_count_dynamic_add(middle, above);
    assert(stack.providers.take(upper).take(lower) =~= stack.providers.take(lower));
}

/// Truncating a valid stack gives a valid stack.
pub proof fn lemma_truncated_valid(stack: ValueStackView, height: int)
    requires
        stack.valid(),
        0 <= height <= stack.height(),
    ensures
        stack.truncated(height).valid(),
{
    assert(stack.providers =~= stack.providers.take(height) + stack.providers.skip(height));
    lemma_count_dynamic_add(stack.providers.take(height), stack.providers.skip(height));
}

/// Dynamic providers count as such.
pub proof fn lemma_count_tagged_dynamic(registers: Seq<Register>)
    ensures
        count_dynamic(tagged_dynamic(registers)) == registers.len(),
    decreases registers.len(),
{
    if registers.len() > 0 {
        lemma_count_tagged_dynamic(registers.drop_last());
        assert(tagged_dynamic(registers).drop_last() =~= tagged_dynamic(registers.drop_last()));
    }
}

/// Pushing newly allocated dynamic registers gives a valid stack.
pub proof fn lemma_pushed_dynamic_valid(stack: ValueStackView, n: nat)
    requires
        stack.valid(),
        stack.registers.phase is Alloc,
        stack.registers.can_push_dynamic(n as int),
    ensures
        stack.pushed_dynamic(n).valid(),
{
    let registers = register_range(stack.registers.next_dynamic, n);
    lemma_count_tagged_dynamic(registers);
    lemma_count_dynamic_add(stack.providers, tagged_dynamic(registers));
}

/// Interning constant values keeps them valid.
pub proof fn lemma_interned_valid(consts: Seq<UntypedValue>, value: UntypedValue)
    requires
        consts_valid(consts),
        can_intern(consts, value),
    ensures
        consts_valid(interned(consts, value)),
{
    if !consts.contains(value) {
        assert(consts.push(value).no_duplicates());
    }
}

} // verus!
