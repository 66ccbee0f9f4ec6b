//! Laws of the value stack that relate several of its operations.
use crate::bytecode::branch::Instr;
use crate::bytecode::provider::{Provider, TypedProvider};
use crate::bytecode::register::{register_range, Register};
use crate::error::TranslationError;
use crate::stack::consts::{
    can_intern, lemma_const_registers_are_stable, lemma_consts_are_deduplicated,
};
use crate::stack::model::{
    lemma_count_tagged_dynamic, lemma_interned_valid, lemma_truncated_twice, lemma_truncated_valid,
    tagged_dynamic, ValueStackView,
};
use crate::stack::provider::{count_dynamic, untagged_all, TaggedProvider};
use crate::stack::register_alloc::{too_many_registers, AllocPhase, RegisterAllocView};
use crate::value::{TypedValue, UntypedValue};
use vstd::prelude::*;

verus! {

/// The stack as it is, but for the greatest number of registers that were ever
/// allocated at once.
pub open spec fn same_but_max_dynamic(a: ValueStackView, b: ValueStackView) -> bool {
    a == (ValueStackView {
        registers: RegisterAllocView { max_dynamic: a.registers.max_dynamic, ..b.registers },
        ..b
    })
}

/// The only provider of a list.
proof fn lemma_count_single(provider: TaggedProvider)
    ensures
        count_dynamic(seq![provider]) == (if provider is Dynamic {
            1int
        } else {
            0int
        }),
{
    reveal_with_fuel(count_dynamic, 2);
    assert(seq![provider].drop_last() =~= Seq::<TaggedProvider>::empty());
}

/// Popping undoes pushing: it gives the provider back and leaves the stack as it
/// was. Only the greatest number of allocated registers may have grown.
pub proof fn lemma_pop_undoes_push(stack: ValueStackView, provider: TaggedProvider)
    ensures
        ({
            let pushed = stack.pushed(provider);
            &&& pushed.height() == stack.height() + 1
            &&& pushed.providers.last() == provider
            &&& pushed.top(1) == seq![provider.untagged()]
            &&& same_but_max_dynamic(pushed.truncated(stack.height() as int), stack)
            &&& !(provider is Dynamic) ==> pushed.truncated(stack.height() as int) == stack
        }),
{
    let pushed = stack.pushed(provider);
    assert(pushed.providers.take(stack.height() as int) =~= stack.providers);
    assert(pushed.providers.skip(stack.height() as int) =~= seq![provider]);
    assert(pushed.top(1) =~= seq![provider.untagged()]);
    lemma_count_single(provider);
}

/// Pushing a register puts that register on top, leaves the providers below as
/// they are, and is undone by popping. It fails only for a register in dynamic
/// space if no dynamic register is left, and changes nothing then.
pub proof fn lemma_pop_undoes_push_register(stack: ValueStackView, reg: Register)
    ensures
        ({
            let (after, result) = stack.push_register(reg);
            match result {
                Ok(_) => {
                    &&& after.height() == stack.height() + 1
                    &&& after.providers.take(stack.height() as int) == stack.providers
                    &&& after.providers.last().untagged() == TypedProvider::Register(reg)
                    &&& after.consts == stack.consts
                    &&& same_but_max_dynamic(after.truncated(stack.height() as int), stack)
                    &&& after.truncated(stack.height() as int).providers == stack.providers
                },
                Err(error) => {
                    &&& error == too_many_registers()
                    &&& after == stack
                    &&& stack.registers.is_dynamic(reg)
                    &&& !stack.registers.can_push_dynamic(1)
                },
            }
        }),
{
    let tagged = if stack.registers.is_dynamic(reg) {
        TaggedProvider::Dynamic(reg)
    } else {
        TaggedProvider::Local(reg)
    };
    lemma_pop_undoes_push(stack, tagged);
    assert(stack.pushed(tagged).providers.take(stack.height() as int) =~= stack.providers);
}

/// Pushing a provider is pushing its register.
pub proof fn lemma_push_provider_is_push_register(stack: ValueStackView, reg: Register)
    ensures
        stack.push_provider(TypedProvider::Register(reg)) == stack.push_register(reg),
{
}

/// Pushing a provider is pushing its constant value, which always succeeds and
/// allocates no function local constant value. The value that is pushed is the one
/// that `value` converts to.
pub proof fn lemma_push_provider_is_push_const(
    stack: ValueStackView,
    value: TypedValue,
    typed: TypedValue,
)
    requires
        call_ensures(<TypedValue as Into<TypedValue>>::into, (value,), typed),
    ensures
        stack.push_provider(TypedProvider::Const(value)) == (
            stack.pushed(TaggedProvider::Const(typed)),
            Ok::<(), TranslationError>(()),
        ),
        stack.pushed(TaggedProvider::Const(typed)).consts == stack.consts,
        stack.pushed(TaggedProvider::Const(typed)).registers == stack.registers,
{
}

/// Pushing providers appends them: all of them if it succeeds, and else those
/// before the first register in dynamic space for which none is left. The
/// providers that are on the stack already, and the constant values, stay as they
/// are.
pub proof fn lemma_push_all_appends(stack: ValueStackView, providers: Seq<TypedProvider>)
    ensures
        ({
            let (after, result) = stack.push_all(providers);
            let n = after.height() - stack.height();
            &&& 0 <= n <= providers.len()
            &&& untagged_all(after.providers) == untagged_all(stack.providers) + providers.take(n)
            &&& stack.providers.is_prefix_of(after.providers)
            &&& after.consts == stack.consts
            &&& match result {
                Ok(_) => {
                    &&& n == providers.len()
                    &&& untagged_all(after.providers) == untagged_all(stack.providers) + providers
                },
                Err(error) => {
                    &&& n < providers.len()
                    &&& error == too_many_registers()
                    &&& providers[n] matches Provider::Register(register)
                    &&& after.registers.is_dynamic(register)
                    &&& !after.registers.can_push_dynamic(1)
                },
            }
        }),
    decreases providers.len(),
{
    if providers.len() == 0 {
        assert(untagged_all(stack.providers) =~= untagged_all(stack.providers) + providers);
        assert(providers.take(0) =~= providers);
    } else {
        let init = providers.drop_last();
        let (before, result) = stack.push_all(init);
        let after = stack.push_all(providers).0;
        let n = before.height() - stack.height();
        lemma_push_all_appends(stack, init);
        assert(init.take(n) =~= providers.take(n));
        if result is Ok {
            assert(init.take(n) =~= init);
            if after.height() > before.height() {
                assert(untagged_all(after.providers) =~= untagged_all(before.providers).push(
                    providers.last(),
                ));
                assert(init.push(providers.last()) =~= providers);
                assert(providers.take(n + 1) =~= providers);
                assert(untagged_all(before.providers).push(providers.last()) =~= untagged_all(
                    stack.providers,
                ) + providers);
            }
        } else {
            assert(init[n] == providers[n]);
        }
    }
}

/// Popping providers undoes pushing them, whether all of them could be pushed or
/// not: it gives back the providers that were pushed, in their order, and leaves
/// the stack as it was. Only the greatest number of allocated registers may have
/// grown.
pub proof fn lemma_pop_n_undoes_push_n(stack: ValueStackView, providers: Seq<TypedProvider>)
    ensures
        ({
            let (after, result) = stack.push_all(providers);
            let n = after.height() - stack.height();
            &&& 0 <= n <= providers.len()
            &&& result is Ok ==> n == providers.len()
            &&& after.top(n) == providers.take(n)
            &&& result is Ok ==> after.top(providers.len() as int) == providers
            &&& same_but_max_dynamic(after.truncated(after.height() - n), stack)
            &&& after.truncated(after.height() - n).providers == stack.providers
        }),
    decreases providers.len(),
{
    let height = stack.height() as int;
    let after = stack.push_all(providers).0;
    let n = after.height() - height;
    lemma_push_all_appends(stack, providers);
    assert(after.top(n) =~= untagged_all(after.providers).skip(height));
    assert(after.top(n) =~= providers.take(n));
    assert(n == providers.len() ==> providers.take(n) =~= providers);
    assert(after.providers.take(height) =~= stack.providers);
    if providers.len() == 0 {
        assert(stack.providers.skip(height) =~= Seq::<TaggedProvider>::empty());
    } else {
        let before = stack.push_all(providers.drop_last()).0;
        lemma_pop_n_undoes_push_n(stack, providers.drop_last());
        lemma_push_all_appends(stack, providers.drop_last());
        if after != before {
            let last = after.providers.last();
            assert(after == before.pushed(last));
            lemma_pop_undoes_push(before, last);
            lemma_truncated_twice(after, before.height() as int, height);
        }
    }
}

/// Whether a provider gets the tag back that it has when it is pushed without
/// one. All providers do but the local ones whose register has become one of
/// dynamic space.
pub open spec fn keeps_tag(stack: ValueStackView, provider: TaggedProvider) -> bool {
    provider matches TaggedProvider::Local(register) ==> !stack.registers.is_dynamic(register)
}

/// Pushing undoes popping: pushing a popped provider back makes the stack what it
/// was.
pub proof fn lemma_push_undoes_pop(stack: ValueStackView)
    requires
        stack.valid(),
        stack.height() >= 1,
        keeps_tag(stack, stack.providers.last()),
    ensures
        stack.truncated(stack.height() - 1).push_provider(stack.providers.last().untagged()) == (
            stack,
            Ok::<(), TranslationError>(()),
        ),
{
    let last = stack.providers.last();
    let height = stack.height() - 1;
    let popped = stack.truncated(height);
    assert(stack.providers.skip(height) =~= seq![last]);
    lemma_count_single(last);
    lemma_truncated_valid(stack, height);
    assert(popped.providers.push(last) =~= stack.providers);
    assert(stack.providers[height] == last);
}

/// Pushing undoes popping, for any number of providers.
pub proof fn lemma_push_n_undoes_pop_n(stack: ValueStackView, n: int)
    requires
        stack.valid(),
        0 <= n <= stack.height(),
        forall|i: int|
            stack.height() - n <= i < stack.height() ==> keeps_tag(
                stack,
                #[trigger] stack.providers[i],
            ),
    ensures
        stack.truncated(stack.height() - n).push_all(stack.top(n)) == (
            stack,
            Ok::<(), TranslationError>(()),
        ),
    decreases n,
{
    let height = stack.height() as int;
    if n == 0 {
        assert(stack.truncated(height) =~= stack) by {
            assert(stack.providers.take(height) =~= stack.providers);
            assert(stack.providers.skip(height) =~= Seq::<TaggedProvider>::empty());
        }
    } else {
        let below = stack.truncated(height - 1);
        lemma_truncated_valid(stack, height - 1);
        lemma_truncated_twice(stack, height - 1, height - n);
        assert forall|i: int|
            below.height() - (n - 1) <= i < below.height() implies keeps_tag(
            below,
            #[trigger] below.providers[i],
        ) by {
            assert(below.providers[i] == stack.providers[i]);
        }
        lemma_push_n_undoes_pop_n(below, n - 1);
        assert(stack.top(n).drop_last() =~= below.top(n - 1));
        assert(stack.top(n).last() == stack.providers.last().untagged());
        lemma_push_undoes_pop(stack);
    }
}

/// Popping `n` providers undoes pushing `n` dynamic registers. What is left is
/// the stack after the registers were only peeked.
pub proof fn lemma_pop_n_undoes_push_dynamic_n(stack: ValueStackView, n: nat)
    ensures
        ({
            let pushed = stack.pushed_dynamic(n);
            &&& pushed.height() == stack.height() + n
            &&& pushed.truncated(stack.height() as int) == stack.peeked_dynamic(n)
            &&& pushed.top(n as int) =~= register_range(stack.registers.next_dynamic, n).map_values(
                |register: Register| TypedProvider::Register(register),
            )
        }),
{
    let registers = register_range(stack.registers.next_dynamic, n);
    let pushed = stack.pushed_dynamic(n);
    let height = stack.height() as int;
    assert(pushed.providers.take(height) =~= stack.providers);
    assert(pushed.providers.skip(height) =~= tagged_dynamic(registers));
    lemma_count_tagged_dynamic(registers);
}

/// Peeking dynamic registers pushes nothing, keeps the registers and constant
/// values that are in use, and peeks the registers that are pushed next.
pub proof fn lemma_peek_dynamic_n_pushes_nothing(stack: ValueStackView, n: nat)
    requires
        stack.valid(),
    ensures
        ({
            let peeked = stack.peeked_dynamic(n);
            &&& same_but_max_dynamic(peeked, stack)
            &&& peeked.registers.can_push_dynamic(n as int) == stack.registers.can_push_dynamic(
                n as int,
            )
            &&& peeked.pushed_dynamic(n) == stack.pushed_dynamic(n)
        }),
{
}

/// Truncating to the current height changes nothing, and truncating to any height
/// leaves the providers below it.
pub proof fn lemma_truncated(stack: ValueStackView, height: int)
    requires
        0 <= height <= stack.height(),
    ensures
        stack.truncated(height).height() == height,
        forall|i: int|
            0 <= i < height ==> #[trigger] stack.truncated(height).providers[i]
                == stack.providers[i],
        height == stack.height() ==> stack.truncated(height) == stack,
        stack.truncated(height).consts == stack.consts,
{
    if height == stack.height() {
        assert(stack.providers.take(height) =~= stack.providers);
        assert(stack.providers.skip(height) =~= Seq::<TaggedProvider>::empty());
    }
}

/// The register of every dynamic provider is one of the registers that the
/// function needs, and the number of those fits into 16 bits.
pub proof fn lemma_dynamic_registers_are_counted(stack: ValueStackView, i: int, register: Register)
    requires
        stack.valid(),
        0 <= i < stack.height(),
        stack.providers[i] == TaggedProvider::Dynamic(register),
    ensures
        stack.registers.len_locals <= register.index < stack.registers.len_registers(),
        stack.registers.len_registers() <= stack.len_registers() <= u16::MAX,
{
}

/// No register of a value stack is in storage space: registering users and
/// defragmenting find nothing to do.
pub proof fn lemma_storage_is_not_used(stack: ValueStackView, reg: Register, user: Instr)
    requires
        stack.valid(),
    ensures
        !stack.registers.is_storage(reg),
        stack.registers.with_user(reg, user) == stack.registers,
        stack.registers.users.len() == 0,
{
    if stack.registers.users.len() > 0 {
        assert(stack.registers.is_storage(stack.registers.users[0].register));
    }
}

/// What the operations of a value stack, but for resetting it, are made up of.
pub enum StackStep {
    /// Registers local variables.
    RegisterLocals { amount: int },
    /// Finishes the registration of local variables.
    FinishRegisterLocals,
    /// Pops the providers above a height.
    Truncate { height: int },
    /// Pushes a provider.
    Push { provider: TaggedProvider },
    /// Pushes providers that have no tag.
    PushAll { providers: Seq<TypedProvider> },
    /// Pushes newly allocated dynamic registers.
    PushDynamic { n: nat },
    /// Allocates dynamic registers and frees them again.
    PeekDynamic { n: nat },
    /// Changes the function local constant values.
    SetConsts { consts: Seq<UntypedValue> },
    /// Registers the user of a register.
    RegisterUser { reg: Register, user: Instr },
    /// Defragments the registers.
    Defrag,
}

/// The stack after a step.
pub open spec fn after_step(stack: ValueStackView, step: StackStep) -> ValueStackView {
    match step {
        StackStep::RegisterLocals { amount } => ValueStackView {
            registers: stack.registers.with_locals(amount),
            ..stack
        },
        StackStep::FinishRegisterLocals => ValueStackView {
            registers: stack.registers.in_phase(AllocPhase::Alloc),
            ..stack
        },
        StackStep::Truncate { height } => stack.truncated(height),
        StackStep::Push { provider } => stack.pushed(provider),
        StackStep::PushAll { providers } => stack.push_all(providers).0,
        StackStep::PushDynamic { n } => stack.pushed_dynamic(n),
        StackStep::PeekDynamic { n } => stack.peeked_dynamic(n),
        StackStep::SetConsts { consts } => stack.with_consts(consts),
        StackStep::RegisterUser { reg, user } => ValueStackView {
            registers: stack.registers.with_user(reg, user),
            ..stack
        },
        StackStep::Defrag => ValueStackView { registers: stack.registers.defragmented(), ..stack },
    }
}

/// The stack after any number of steps.
pub open spec fn after_steps(stack: ValueStackView, steps: Seq<StackStep>) -> ValueStackView
    decreases steps.len(),
{
    if steps.len() == 0 {
        stack
    } else {
        after_step(after_steps(stack, steps.drop_last()), steps.last())
    }
}

/// Pushing providers keeps the phase of the allocation.
pub proof fn lemma_push_all_keeps_phase(stack: ValueStackView, providers: Seq<TypedProvider>)
    ensures
        stack.push_all(providers).0.registers.phase == stack.registers.phase,
    decreases providers.len(),
{
    if providers.len() > 0 {
        lemma_push_all_keeps_phase(stack, providers.drop_last());
    }
}

/// No local variable can be registered any more once the registration was
/// finished: whatever is done with the stack, short of resetting it, it does not
/// get back to the phase that registering local variables, whatever their amount,
/// requires.
pub proof fn lemma_registration_stays_finished(stack: ValueStackView, steps: Seq<StackStep>)
    ensures
        !(after_steps(
            after_step(stack, StackStep::FinishRegisterLocals),
            steps,
        ).registers.phase is Init),
    decreases steps.len(),
{
    let finished = after_step(stack, StackStep::FinishRegisterLocals);
    if steps.len() > 0 {
        lemma_registration_stays_finished(stack, steps.drop_last());
        if let StackStep::PushAll { providers } = steps.last() {
            lemma_push_all_keeps_phase(after_steps(finished, steps.drop_last()), providers);
        }
    }
}

/// Constant values are deduplicated: allocating a value again gives the register
/// that it has and changes nothing, even if no other value can be allocated.
pub proof fn lemma_alloc_const_is_deduplicated(stack: ValueStackView, value: UntypedValue)
    requires
        stack.valid(),
        stack.alloc_const(value).1 is Ok,
    ensures
        stack.alloc_const(value).0.valid(),
        stack.alloc_const(value).0.alloc_const(value) == stack.alloc_const(value),
{
    lemma_interned_valid(stack.consts, value);
    lemma_consts_are_deduplicated(stack.consts, value);
}

/// Allocating a constant value leaves the registers of the allocated ones as they
/// are: they are what allocating them again gives.
pub proof fn lemma_alloc_const_keeps_registers(
    stack: ValueStackView,
    value: UntypedValue,
    other: UntypedValue,
)
    requires
        stack.valid(),
        stack.consts.contains(other),
    ensures
        stack.alloc_const(other).0 == stack,
        stack.alloc_const(value).0.alloc_const(other).0 == stack.alloc_const(value).0,
        stack.alloc_const(value).0.alloc_const(other).1 == stack.alloc_const(other).1,
{
    if can_intern(stack.consts, value) {
        lemma_const_registers_are_stable(stack.consts, value, other);
    }
}

} // verus!
