//! Laws of the value stack.
use crate::bytecode::branch::Instr;
use crate::bytecode::provider::{Provider, TypedProvider};
use crate::bytecode::register::{Register, RegisterSpan};
use crate::encoder::InstrEncoder;
use crate::error::TranslationError;
use crate::func_type::FuncType;
use crate::laws::allocation::is_new_allocation;
use crate::stack::consts::{consts_valid, FuncLocalConstsIter};
use crate::stack::laws::lemma_push_all_appends;
use crate::stack::model::{
    intern_all, lemma_interned_valid, lemma_truncated_twice, lemma_truncated_valid, ValueStackView,
};
use crate::stack::provider::{count_dynamic, untagged_all, TaggedProvider};
use crate::stack::register_alloc::{AllocPhase, RegisterAllocView, StorageUser};
use crate::stack::ValueStack;
use crate::value::{TypedValue, UntypedValue};
use vstd::prelude::*;

verus! {

/// The number of dynamically allocated registers among the providers.
pub open spec fn dynamics(providers: Seq<TaggedProvider>) -> int {
    providers.filter(|provider: TaggedProvider| provider is Dynamic).len() as int
}

/// Whether `provider` is what the tagged provider stands for.
pub open spec fn is_provider(tagged: TaggedProvider, provider: TypedProvider) -> bool {
    match (tagged, provider) {
        (TaggedProvider::Local(a), Provider::Register(b)) => a == b,
        (TaggedProvider::Dynamic(a), Provider::Register(b)) => a == b,
        (TaggedProvider::Storage(a), Provider::Register(b)) => a == b,
        (TaggedProvider::Const(a), Provider::Const(b)) => a == b,
        _ => false,
    }
}

/// Whether `providers` are what the `n` top-most providers of the stack stand for,
/// with the top-most one last.
pub open spec fn are_on_top(stack: ValueStackView, providers: Seq<TypedProvider>, n: int) -> bool {
    &&& providers.len() == n
    &&& forall|i: int|
        0 <= i < n ==> is_provider(
            stack.providers[stack.providers.len() - n + i],
            #[trigger] providers[i],
        )
}

/// Whether `after` is the stack `before` without its `n` top-most providers, whose
/// dynamic registers are free again, but for its constant values.
pub open spec fn is_popped(before: ValueStackView, after: ValueStackView, n: int) -> bool {
    let height = before.providers.len() - n;
    &&& after.providers == before.providers.take(height)
    &&& after.registers == (RegisterAllocView {
        next_dynamic: before.registers.next_dynamic - dynamics(before.providers.skip(height)),
        ..before.registers
    })
}

/// Whether `after` is the stack `before` with another provider on top.
pub open spec fn is_pushed(
    before: ValueStackView,
    after: ValueStackView,
    provider: TaggedProvider,
) -> bool {
    &&& after.providers == before.providers.push(provider)
    &&& after.consts == before.consts
    &&& if provider is Dynamic {
        is_grown(before.registers, after.registers, 1)
    } else {
        after.registers == before.registers
    }
}

/// Whether `after` is the allocation `before` with `n` more dynamic registers.
pub open spec fn is_grown(before: RegisterAllocView, after: RegisterAllocView, n: int) -> bool {
    let next = before.next_dynamic + n;
    after == (RegisterAllocView {
        next_dynamic: next,
        max_dynamic: if before.max_dynamic < next {
            next
        } else {
            before.max_dynamic
        },
        ..before
    })
}

/// Whether the register holds the value of the provider: it is the register of the
/// provider, or the one of a constant value with the bits of the provider.
pub open spec fn holds(
    register: Register,
    provider: TypedProvider,
    consts: Seq<UntypedValue>,
) -> bool {
    match provider {
        Provider::Register(other) => register == other,
        Provider::Const(value) => {
            &&& -(consts.len() as int) <= register.index < 0
            &&& consts[-1 - register.index] == value.value
        },
    }
}

/// Whether `after` are the constant values `before` with none but constant values
/// of `providers` behind them, and none of them twice.
pub open spec fn is_extended(
    before: Seq<UntypedValue>,
    after: Seq<UntypedValue>,
    providers: Seq<TypedProvider>,
) -> bool {
    &&& before.is_prefix_of(after)
    &&& after.no_duplicates()
    &&& forall|k: int|
        before.len() <= k < after.len() ==> is_value_of_one(#[trigger] after[k], providers)
}

/// Whether one of the providers is a constant value with the given bits.
pub open spec fn is_value_of_one(bits: UntypedValue, providers: Seq<TypedProvider>) -> bool {
    exists|i: int|
        0 <= i < providers.len() && (#[trigger] providers[i] matches Provider::Const(value)
            && value.value == bits)
}

/// The dynamically allocated registers are counted one by one.
proof fn lemma_dynamics_are_counted(providers: Seq<TaggedProvider>)
    ensures
        count_dynamic(providers) == dynamics(providers),
    decreases providers.len(),
{
    reveal(Seq::filter);
    if providers.len() > 0 {
        lemma_dynamics_are_counted(providers.drop_last());
    }
}

/// Truncating a stack pops its top-most providers.
proof fn lemma_truncated_is_popped(stack: ValueStackView, n: int)
    requires
        0 <= n <= stack.height(),
    ensures
        is_popped(stack, stack.truncated(stack.height() - n), n),
        stack.truncated(stack.height() - n).consts == stack.consts,
{
    lemma_dynamics_are_counted(stack.providers.skip(stack.height() - n));
}

/// Register spaces that follow one another are in order.
pub proof fn lemma_spaces_in_order_are_valid(alloc: RegisterAllocView)
    requires
        0 <= alloc.len_locals <= alloc.next_dynamic <= alloc.max_dynamic <= alloc.min_storage,
        alloc.min_storage <= alloc.next_storage <= 0x7fff,
        alloc.phase is Init ==> alloc.max_dynamic == alloc.len_locals && alloc.min_storage
            == 0x7fff,
        forall|i: int|
            0 <= i < alloc.users.len() ==> alloc.min_storage < (
            #[trigger] alloc.users[i]).register.index,
    ensures
        alloc.valid(),
{
}

/// A stack is valid if its register spaces are in order, none of its registers is
/// in storage space, each of its dynamic providers has an allocated register, and
/// its constant values are different and have a register each.
pub proof fn lemma_stacks_in_order_are_valid(stack: ValueStackView)
    requires
        stack.registers.valid(),
        stack.registers.min_storage == 0x7fff,
        stack.registers.next_dynamic == stack.registers.len_locals + dynamics(stack.providers),
        forall|i: int|
            0 <= i < stack.providers.len() ==> match #[trigger] stack.providers[i] {
                TaggedProvider::Dynamic(register) => stack.registers.len_locals <= register.index
                    < stack.registers.max_dynamic,
                TaggedProvider::Storage(_) => false,
                _ => true,
            },
        stack.consts.no_duplicates(),
        stack.consts.len() <= 0x7fff,
    ensures
        stack.valid(),
{
    lemma_dynamics_are_counted(stack.providers);
}

/// A new stack has no providers, no registers and no constant values, and neither
/// has one that was reset.
pub proof fn lemma_new_stack_is_empty(created: ValueStack, stack: &mut ValueStack)
    requires
        call_ensures(<ValueStack as Default>::default, (), created),
        call_ensures(ValueStack::reset, (stack,), ()),
    ensures
        created.wf(),
        created@.providers.len() == 0,
        created@.consts.len() == 0,
        is_new_allocation(created@.registers),
        final(stack).wf(),
        final(stack)@.providers.len() == 0,
        final(stack)@.consts.len() == 0,
        is_new_allocation(final(stack)@.registers),
{
}

/// What a stack tells: the number of its providers, the number of the registers
/// that the function needs, and the constant values in reversed order. The
/// registers are those of constant values, local variables and the greatest number
/// of dynamic registers so far.
pub proof fn lemma_stack_tells_its_contents(
    stack: &ValueStack,
    height: usize,
    len: u16,
    iter: FuncLocalConstsIter,
)
    requires
        stack.wf(),
        call_ensures(ValueStack::height, (stack,), height),
        call_ensures(ValueStack::len_registers, (stack,), len),
        call_ensures(ValueStack::func_local_consts, (stack,), iter),
    ensures
        height == stack@.providers.len(),
        len == stack@.consts.len() + stack@.registers.max_dynamic,
        iter@.len() == stack@.consts.len(),
        forall|i: int|
            0 <= i < iter@.len() ==> #[trigger] iter@[i] == stack@.consts[stack@.consts.len() - 1
                - i],
{
}

/// Peeking gives the top-most provider.
pub proof fn lemma_peek_gives_the_top(stack: &ValueStack, top: TypedProvider)
    requires
        stack@.providers.len() >= 1,
        call_ensures(ValueStack::peek, (stack,), top),
    ensures
        is_provider(stack@.providers[stack@.providers.len() - 1], top),
{
}

/// Registering local variables adds to their number: dynamic registers start right
/// behind them. It fails only if there would be more than the greatest index
/// allows, and changes nothing then.
pub proof fn lemma_locals_of_a_stack_add_up(
    stack: &mut ValueStack,
    amount: u32,
    result: Result<(), TranslationError>,
)
    requires
        call_ensures(ValueStack::register_locals, (stack, amount), result),
    ensures
        final(stack)@.providers == old(stack)@.providers,
        final(stack)@.consts == old(stack)@.consts,
        match result {
            Ok(_) => {
                let len_locals = old(stack)@.registers.len_locals + amount;
                &&& len_locals <= 0x7fff
                &&& final(stack)@.registers == (RegisterAllocView {
                    len_locals,
                    next_dynamic: len_locals,
                    max_dynamic: len_locals,
                    ..old(stack)@.registers
                })
            },
            Err(error) => {
                &&& error.inner is AllocatedTooManyRegisters
                &&& old(stack)@.registers.len_locals + amount > 0x7fff
                &&& final(stack)@ == old(stack)@
            },
        },
{
}

/// Registering local variables twice is registering the sum, and succeeds if and
/// only if that does.
pub proof fn lemma_locals_registered_twice_are_the_sum(
    first: &mut ValueStack,
    second: &mut ValueStack,
    at_once: &mut ValueStack,
    amounts: (u32, u32, u32),
    results: (Result<(), TranslationError>, Result<(), TranslationError>, Result<
        (),
        TranslationError,
    >),
)
    requires
        amounts.0 + amounts.1 == amounts.2,
        old(first)@ == old(at_once)@,
        call_ensures(ValueStack::register_locals, (first, amounts.0), results.0),
        old(second)@ == final(first)@,
        call_ensures(ValueStack::register_locals, (second, amounts.1), results.1),
        call_ensures(ValueStack::register_locals, (at_once, amounts.2), results.2),
    ensures
        results.0 is Ok && results.1 is Ok <==> results.2 is Ok,
        results.2 is Ok ==> final(second)@ == final(at_once)@,
{
}

/// Finishing the registration of local variables starts the allocation of
/// registers, and changes nothing else.
pub proof fn lemma_finishing_starts_allocation_of_a_stack(stack: &mut ValueStack)
    requires
        call_ensures(ValueStack::finish_register_locals, (stack,), ()),
    ensures
        final(stack)@ == (ValueStackView {
            registers: RegisterAllocView { phase: AllocPhase::Alloc, ..old(stack)@.registers },
            ..old(stack)@
        }),
{
}

/// An allocated constant value is in the register that is returned. A value that is
/// there already changes nothing, another one comes behind all others. It fails
/// only for another one if no register is left, and changes nothing then.
pub proof fn lemma_constants_of_a_stack_are_in_their_register(
    stack: &mut ValueStack,
    value: UntypedValue,
    result: Result<Register, TranslationError>,
)
    requires
        old(stack).wf(),
        call_ensures(ValueStack::alloc_const::<UntypedValue>, (stack, value), result),
    ensures
        final(stack)@.providers == old(stack)@.providers,
        final(stack)@.registers == old(stack)@.registers,
        match result {
            Ok(register) => {
                &&& -(final(stack)@.consts.len() as int) <= register.index < 0
                &&& final(stack)@.consts[-1 - register.index] == value
                &&& final(stack)@.consts == (if old(stack)@.consts.contains(value) {
                    old(stack)@.consts
                } else {
                    old(stack)@.consts.push(value)
                })
            },
            Err(error) => {
                &&& error.inner is TooManyFuncLocalConstValues
                &&& !old(stack)@.consts.contains(value)
                &&& old(stack)@.consts.len() == 0x7fff
                &&& final(stack)@ == old(stack)@
            },
        },
{
    if result is Ok && !old(stack)@.consts.contains(value) {
        assert(old(stack)@.consts.push(value)[old(stack)@.consts.len() as int] == value);
    }
}

/// Pushing a constant value puts it on top, with its type, and changes nothing
/// else. No function local constant value is allocated.
pub proof fn lemma_pushed_constant_is_on_top(stack: &mut ValueStack, value: TypedValue)
    requires
        call_ensures(ValueStack::push_const::<TypedValue>, (stack, value), ()),
    ensures
        is_pushed(old(stack)@, final(stack)@, TaggedProvider::Const(value)),
{
}

/// Pushing the register of a local variable puts it on top and returns it. Only an
/// index that is not that of a local variable is refused, and changes nothing.
pub proof fn lemma_pushed_local_is_on_top(
    stack: &mut ValueStack,
    local_index: u32,
    result: Result<Register, TranslationError>,
)
    requires
        old(stack).wf(),
        call_ensures(ValueStack::push_local, (stack, local_index), result),
    ensures
        match result {
            Ok(register) => {
                &&& register.index == local_index
                &&& local_index < old(stack)@.registers.len_locals
                &&& is_pushed(old(stack)@, final(stack)@, TaggedProvider::Local(register))
            },
            Err(error) => {
                &&& error.inner is RegisterOutOfBounds
                &&& local_index >= old(stack)@.registers.len_locals
                &&& final(stack)@ == old(stack)@
            },
        },
{
}

/// Pushing a dynamic register allocates the next one, puts it on top and returns
/// it. It fails only if none is left, and changes nothing then.
pub proof fn lemma_pushed_dynamic_register_is_the_next_one(
    stack: &mut ValueStack,
    result: Result<Register, TranslationError>,
)
    requires
        old(stack).wf(),
        call_ensures(ValueStack::push_dynamic, (stack,), result),
    ensures
        match result {
            Ok(register) => {
                &&& register.index == old(stack)@.registers.next_dynamic
                &&& is_pushed(old(stack)@, final(stack)@, TaggedProvider::Dynamic(register))
            },
            Err(error) => {
                &&& error.inner is AllocatedTooManyRegisters
                &&& old(stack)@.registers.next_dynamic >= 0x7fff
                &&& final(stack)@ == old(stack)@
            },
        },
{
}

/// Pushing a register puts it on top. It counts as newly allocated if it is in the
/// space of dynamic registers, and as a local variable else. It fails only if it is
/// in that space and no register is left, and changes nothing then.
pub proof fn lemma_pushed_register_is_on_top(
    stack: &mut ValueStack,
    reg: Register,
    result: Result<(), TranslationError>,
)
    requires
        old(stack).wf(),
        call_ensures(ValueStack::push_register, (stack, reg), result),
    ensures
        ({
            let registers = old(stack)@.registers;
            let is_dynamic = registers.len_locals <= reg.index < registers.max_dynamic;
            match result {
                Ok(_) => is_pushed(
                    old(stack)@,
                    final(stack)@,
                    if is_dynamic {
                        TaggedProvider::Dynamic(reg)
                    } else {
                        TaggedProvider::Local(reg)
                    },
                ),
                Err(error) => {
                    &&& error.inner is AllocatedTooManyRegisters
                    &&& is_dynamic
                    &&& registers.next_dynamic >= 0x7fff
                    &&& final(stack)@ == old(stack)@
                },
            }
        }),
{
}

/// Pushing a provider is pushing its register or its constant value.
pub proof fn lemma_pushed_provider_is_its_value(
    stack: &mut ValueStack,
    other: &mut ValueStack,
    provider: TypedProvider,
    result: Result<(), TranslationError>,
    other_result: Result<(), TranslationError>,
)
    requires
        old(stack)@ == old(other)@,
        call_ensures(ValueStack::push_provider, (stack, provider), result),
        match provider {
            Provider::Register(register) => call_ensures(
                ValueStack::push_register,
                (other, register),
                other_result,
            ),
            Provider::Const(value) => {
                &&& call_ensures(ValueStack::push_const::<TypedValue>, (other, value), ())
                &&& other_result == Ok::<(), TranslationError>(())
            },
        },
    ensures
        final(stack)@ == final(other)@,
        result == other_result,
{
}

/// Popping takes the top-most provider off and gives it back.
pub proof fn lemma_pop_takes_the_top(stack: &mut ValueStack, provider: TypedProvider)
    requires
        old(stack)@.providers.len() >= 1,
        call_ensures(ValueStack::pop, (stack,), provider),
    ensures
        is_popped(old(stack)@, final(stack)@, 1),
        final(stack)@.consts == old(stack)@.consts,
        is_provider(old(stack)@.providers[old(stack)@.providers.len() - 1], provider),
{
    lemma_truncated_is_popped(old(stack)@, 1);
}

/// Popping two providers takes the two top-most ones off and gives them back, with
/// the top-most one last.
pub proof fn lemma_pop2_takes_the_top_two(
    stack: &mut ValueStack,
    providers: (TypedProvider, TypedProvider),
)
    requires
        old(stack)@.providers.len() >= 2,
        call_ensures(ValueStack::pop2, (stack,), providers),
    ensures
        is_popped(old(stack)@, final(stack)@, 2),
        final(stack)@.consts == old(stack)@.consts,
        are_on_top(old(stack)@, seq![providers.0, providers.1], 2),
{
    lemma_truncated_is_popped(old(stack)@, 2);
}

/// Popping three providers takes the three top-most ones off and gives them back,
/// with the top-most one last.
pub proof fn lemma_pop3_takes_the_top_three(
    stack: &mut ValueStack,
    providers: (TypedProvider, TypedProvider, TypedProvider),
)
    requires
        old(stack)@.providers.len() >= 3,
        call_ensures(ValueStack::pop3, (stack,), providers),
    ensures
        is_popped(old(stack)@, final(stack)@, 3),
        final(stack)@.consts == old(stack)@.consts,
        are_on_top(old(stack)@, seq![providers.0, providers.1, providers.2], 3),
{
    lemma_truncated_is_popped(old(stack)@, 3);
}

/// Popping `n` providers takes the `n` top-most ones off and gives them back, with
/// the top-most one last. Peeking gives the same ones and changes nothing.
pub proof fn lemma_pop_n_takes_the_top_n(
    stack: &mut ValueStack,
    popped: &mut Vec<TypedProvider>,
    other: &mut ValueStack,
    peeked: &mut Vec<TypedProvider>,
    n: usize,
)
    requires
        n <= old(stack)@.providers.len(),
        call_ensures(ValueStack::pop_n, (stack, n, popped), ()),
        n <= old(other)@.providers.len(),
        call_ensures(ValueStack::peek_n, (other, n, peeked), ()),
    ensures
        is_popped(old(stack)@, final(stack)@, n as int),
        final(stack)@.consts == old(stack)@.consts,
        are_on_top(old(stack)@, final(popped)@, n as int),
        *final(other) == *old(other),
        are_on_top(old(other)@, final(peeked)@, n as int),
{
    lemma_truncated_is_popped(old(stack)@, n as int);
}

/// Truncating to a height pops the providers above it.
pub proof fn lemma_truncating_pops_what_is_above(stack: &mut ValueStack, height: usize)
    requires
        height <= old(stack)@.providers.len(),
        call_ensures(ValueStack::trunc, (stack, height), ()),
    ensures
        is_popped(old(stack)@, final(stack)@, old(stack)@.providers.len() - height),
        final(stack)@.consts == old(stack)@.consts,
        final(stack)@.providers.len() == height,
{
    lemma_truncated_is_popped(old(stack)@, old(stack)@.providers.len() - height);
}

/// Popping a provider as a register takes exactly the top-most one off. The
/// register that is returned holds its value. The constant values grow by that
/// value only if the provider is a constant value that was not there. It fails only
/// if no register is left for it.
pub proof fn lemma_pop_as_register_takes_the_top(
    stack: &mut ValueStack,
    result: Result<Register, TranslationError>,
)
    requires
        old(stack).wf(),
        old(stack)@.providers.len() >= 1,
        call_ensures(ValueStack::pop_as_register, (stack,), result),
    ensures
        is_popped(old(stack)@, final(stack)@, 1),
        exists|provider: TypedProvider|
            {
                &&& #[trigger] is_provider(
                    old(stack)@.providers[old(stack)@.providers.len() - 1],
                    provider,
                )
                &&& match result {
                    Ok(register) => {
                        &&& holds(register, provider, final(stack)@.consts)
                        &&& is_extended(old(stack)@.consts, final(stack)@.consts, seq![provider])
                    },
                    Err(error) => {
                        &&& error.inner is TooManyFuncLocalConstValues
                        &&& provider matches Provider::Const(value)
                        &&& !old(stack)@.consts.contains(value.value)
                        &&& old(stack)@.consts.len() == 0x7fff
                        &&& final(stack)@.consts == old(stack)@.consts
                    },
                }
            },
{
    let top = old(stack)@.providers[old(stack)@.providers.len() - 1].untagged();
    lemma_truncated_is_popped(old(stack)@, 1);
    lemma_popped_register_holds(old(stack)@);
    assert(is_provider(old(stack)@.providers[old(stack)@.providers.len() - 1], top));
}

/// The register of a popped provider holds its value.
proof fn lemma_popped_register_holds(stack: ValueStackView)
    requires
        stack.valid(),
        stack.height() >= 1,
    ensures
        ({
            let (after, result) = stack.pop_as_register();
            let provider = stack.providers.last().untagged();
            &&& is_extended(stack.consts, after.consts, seq![provider])
            &&& result matches Ok(register) ==> holds(register, provider, after.consts)
            &&& stack.registers.valid() && after.consts.len() <= 0x7fff
        }),
{
    let provider = stack.providers.last().untagged();
    let after = stack.pop_as_register().0;
    assert(seq![provider][0] == provider);
    if let Provider::Const(value) = provider {
        if stack.consts.len() < 0x7fff || stack.consts.contains(value.value) {
            lemma_interned_valid(stack.consts, value.value);
            if !stack.consts.contains(value.value) {
                assert(after.consts[stack.consts.len() as int] == value.value);
            }
        }
    }
}

/// Popping two providers as registers is popping one after the other, the top-most
/// one first. The one that was popped first comes last.
pub proof fn lemma_pop2_as_registers_pops_twice(
    stack: &mut ValueStack,
    first: &mut ValueStack,
    second: &mut ValueStack,
    result: Result<(Register, Register), TranslationError>,
    rhs: Result<Register, TranslationError>,
    lhs: Result<Register, TranslationError>,
)
    requires
        old(stack)@ == old(first)@,
        call_ensures(ValueStack::pop2_as_registers, (stack,), result),
        call_ensures(ValueStack::pop_as_register, (first,), rhs),
        old(second)@ == final(first)@,
        call_ensures(ValueStack::pop_as_register, (second,), lhs),
    ensures
        match (lhs, rhs) {
            (Ok(lhs), Ok(rhs)) => {
                &&& result == Ok::<(Register, Register), TranslationError>((lhs, rhs))
                &&& final(stack)@ == final(second)@
            },
            (_, Err(error)) => {
                &&& result == Err::<(Register, Register), TranslationError>(error)
                &&& final(stack)@ == final(first)@
            },
            (Err(error), Ok(_)) => {
                &&& result == Err::<(Register, Register), TranslationError>(error)
                &&& final(stack)@ == final(second)@
            },
        },
{
}

/// Popping three providers as registers is popping two and then one. The one that
/// was popped last comes first.
pub proof fn lemma_pop3_as_registers_pops_three_times(
    stack: &mut ValueStack,
    first: &mut ValueStack,
    second: &mut ValueStack,
    result: Result<(Register, Register, Register), TranslationError>,
    upper: Result<(Register, Register), TranslationError>,
    lower: Result<Register, TranslationError>,
)
    requires
        old(stack)@ == old(first)@,
        call_ensures(ValueStack::pop3_as_registers, (stack,), result),
        call_ensures(ValueStack::pop2_as_registers, (first,), upper),
        old(second)@ == final(first)@,
        call_ensures(ValueStack::pop_as_register, (second,), lower),
    ensures
        match (upper, lower) {
            (Ok((v1, v2)), Ok(v0)) => {
                &&& result == Ok::<(Register, Register, Register), TranslationError>((v0, v1, v2))
                &&& final(stack)@ == final(second)@
            },
            (Err(error), _) => {
                &&& result == Err::<(Register, Register, Register), TranslationError>(error)
                &&& final(stack)@ == final(first)@
            },
            (Ok(_), Err(error)) => {
                &&& result == Err::<(Register, Register, Register), TranslationError>(error)
                &&& final(stack)@ == final(second)@
            },
        },
{
}

/// Popping two providers as registers takes exactly the two top-most ones off. The
/// registers hold their values, and only those constant values may be new.
pub proof fn lemma_pop2_as_registers_takes_the_top_two(
    stack: &mut ValueStack,
    providers: Seq<TypedProvider>,
    lhs: Register,
    rhs: Register,
)
    requires
        old(stack).wf(),
        old(stack)@.providers.len() >= 2,
        are_on_top(old(stack)@, providers, 2),
        call_ensures(
            ValueStack::pop2_as_registers,
            (stack,),
            Ok::<(Register, Register), TranslationError>((lhs, rhs)),
        ),
    ensures
        is_popped(old(stack)@, final(stack)@, 2),
        is_extended(old(stack)@.consts, final(stack)@.consts, providers),
        holds(lhs, providers[0], final(stack)@.consts),
        holds(rhs, providers[1], final(stack)@.consts),
{
    let before = old(stack)@;
    assert(is_provider(before.providers[before.providers.len() - 2], providers[0]));
    assert(is_provider(before.providers[before.providers.len() - 1], providers[1]));
    lemma_pop2_holds(before);
    assert(providers =~= before.top(2));
}

/// The registers of two popped providers hold their values.
proof fn lemma_pop2_holds(stack: ValueStackView)
    requires
        stack.valid(),
        stack.height() >= 2,
        stack.pop2_as_registers().1 is Ok,
    ensures
        ({
            let (after, result) = stack.pop2_as_registers();
            let (lhs, rhs) = result->Ok_0;
            let providers = stack.top(2);
            &&& is_popped(stack, after, 2)
            &&& is_extended(stack.consts, after.consts, providers)
            &&& holds(lhs, providers[0], after.consts)
            &&& holds(rhs, providers[1], after.consts)
            &&& after.valid()
        }),
{
    let height = stack.height() as int;
    let first = stack.pop_as_register().0;
    let after = first.pop_as_register().0;
    let providers = stack.top(2);
    lemma_truncated_valid(stack, height - 1);
    lemma_popped_register_holds(stack);
    assert(first.valid());
    assert(first.providers.last() == stack.providers[height - 2]);
    lemma_popped_register_holds(first);
    lemma_truncated_is_popped(stack, 2);
    lemma_truncated_twice(stack, height - 1, height - 2);
    assert(after.registers == stack.truncated(height - 2).registers);
    assert(after.providers == stack.truncated(height - 2).providers);
    lemma_truncated_valid(stack, height - 2);
    assert(seq![stack.providers.last().untagged()][0] == providers[1]);
    assert(seq![first.providers.last().untagged()][0] == providers[0]);
    assert forall|k: int| stack.consts.len() <= k < after.consts.len() implies is_value_of_one(
        #[trigger] after.consts[k],
        providers,
    ) by {
        if k < first.consts.len() {
            assert(first.consts[k] == after.consts[k]);
            assert(providers[1] matches Provider::Const(value) && value.value == after.consts[k]);
        } else {
            assert(providers[0] matches Provider::Const(value) && value.value == after.consts[k]);
        }
    }
}

/// Popping three providers as registers takes exactly the three top-most ones off.
/// The registers hold their values, and only those constant values may be new.
pub proof fn lemma_pop3_as_registers_takes_the_top_three(
    stack: &mut ValueStack,
    providers: Seq<TypedProvider>,
    registers: (Register, Register, Register),
)
    requires
        old(stack).wf(),
        old(stack)@.providers.len() >= 3,
        are_on_top(old(stack)@, providers, 3),
        call_ensures(
            ValueStack::pop3_as_registers,
            (stack,),
            Ok::<(Register, Register, Register), TranslationError>(registers),
        ),
    ensures
        is_popped(old(stack)@, final(stack)@, 3),
        is_extended(old(stack)@.consts, final(stack)@.consts, providers),
        holds(registers.0, providers[0], final(stack)@.consts),
        holds(registers.1, providers[1], final(stack)@.consts),
        holds(registers.2, providers[2], final(stack)@.consts),
{
    let before = old(stack)@;
    let height = before.height() as int;
    let upper = before.pop2_as_registers().0;
    let after = upper.pop_as_register().0;
    assert(is_provider(before.providers[height - 3], providers[0]));
    assert(is_provider(before.providers[height - 2], providers[1]));
    assert(is_provider(before.providers[height - 1], providers[2]));
    lemma_pop2_holds(before);
    assert(upper.providers.last() == before.providers[height - 3]);
    lemma_popped_register_holds(upper);
    lemma_truncated_is_popped(before, 3);
    lemma_truncated_is_popped(before, 2);
    lemma_truncated_twice(before, height - 2, height - 3);
    assert(upper.registers == before.truncated(height - 2).registers);
    assert(upper.providers == before.truncated(height - 2).providers);
    assert(providers[0] == upper.providers.last().untagged());
    assert(seq![upper.providers.last().untagged()][0] == providers[0]);
    assert(before.top(2)[0] == providers[1] && before.top(2)[1] == providers[2]);
    assert forall|k: int| before.consts.len() <= k < after.consts.len() implies is_value_of_one(
        #[trigger] after.consts[k],
        providers,
    ) by {
        if k < upper.consts.len() {
            assert(upper.consts[k] == after.consts[k]);
            let i = choose|i: int|
                0 <= i < before.top(2).len() && (#[trigger] before.top(2)[i] matches
                    Provider::Const(value) && value.value == upper.consts[k]);
            assert(before.top(2)[i] == providers[i + 1]);
        } else {
            assert(providers[0] matches Provider::Const(value) && value.value == after.consts[k]);
        }
    }
}

/// What turning providers into registers gives.
proof fn lemma_interned_registers_hold(consts: Seq<UntypedValue>, providers: Seq<TypedProvider>)
    requires
        consts_valid(consts),
    ensures
        ({
            let interned = intern_all(consts, providers);
            let n = interned.registers.len() as int;
            &&& n <= providers.len()
            &&& interned.complete <==> n == providers.len()
            &&& interned.consts.len() <= 0x7fff
            &&& is_extended(consts, interned.consts, providers.take(n))
            &&& forall|i: int|
                0 <= i < n ==> holds(
                    #[trigger] interned.registers[i],
                    providers[i],
                    interned.consts,
                )
            &&& !interned.complete ==> {
                &&& providers[n] matches Provider::Const(value)
                &&& !interned.consts.contains(value.value)
                &&& interned.consts.len() == 0x7fff
            }
        }),
    decreases providers.len(),
{
    if providers.len() == 0 {
        assert(providers.take(0) =~= providers);
    } else {
        let init = providers.drop_last();
        let last = providers.last();
        let before = intern_all(consts, init);
        let after = intern_all(consts, providers);
        let m = before.registers.len() as int;
        lemma_interned_registers_hold(consts, init);
        assert(providers.take(m) =~= init.take(m));
        if !before.complete {
            assert(after == before);
            assert(init[m] == providers[m]);
        } else if after.complete {
            assert(m == init.len());
            assert(init.take(m) =~= init);
            assert(providers.take(m + 1) =~= init.push(last));
            if let Provider::Const(value) = last {
                if before.consts.contains(value.value) {
                    assert(after.consts == before.consts);
                } else {
                    assert(after.consts == before.consts.push(value.value));
                }
            }
            lemma_extended_further(consts, before.consts, after.consts, init, last);
            assert forall|i: int| 0 <= i < m + 1 implies holds(
                #[trigger] after.registers[i],
                providers[i],
                after.consts,
            ) by {
                if i < m {
                    assert(after.registers[i] == before.registers[i]);
                    assert(holds(before.registers[i], init[i], before.consts));
                    lemma_held_values_stay(
                        before.registers[i],
                        init[i],
                        before.consts,
                        after.consts,
                    );
                } else if let Provider::Const(value) = last {
                    if !before.consts.contains(value.value) {
                        assert(after.consts[before.consts.len() as int] == value.value);
                    }
                }
            }
        } else {
            assert(after.consts == before.consts);
            assert(after.registers == before.registers);
            assert(m == init.len());
            assert(providers[m] == last);
        }
    }
}

/// Constant values that get another one behind them.
proof fn lemma_extended_further(
    consts: Seq<UntypedValue>,
    before: Seq<UntypedValue>,
    after: Seq<UntypedValue>,
    providers: Seq<TypedProvider>,
    provider: TypedProvider,
)
    requires
        is_extended(consts, before, providers),
        after == before || {
            &&& provider matches Provider::Const(value)
            &&& after == before.push(value.value)
            &&& !before.contains(value.value)
        },
    ensures
        is_extended(consts, after, providers.push(provider)),
{
    let all = providers.push(provider);
    assert(after.no_duplicates());
    assert(consts.is_prefix_of(after));
    assert forall|k: int| consts.len() <= k < after.len() implies is_value_of_one(
        #[trigger] after[k],
        all,
    ) by {
        if k < before.len() {
            assert(before[k] == after[k]);
            let i = choose|i: int|
                0 <= i < providers.len() && (#[trigger] providers[i] matches Provider::Const(value)
                    && value.value == before[k]);
            assert(all[i] == providers[i]);
        } else {
            assert(all[providers.len() as int] == provider);
        }
    }
}

/// A register that holds a value goes on to hold it when there are more constant
/// values.
proof fn lemma_held_values_stay(
    register: Register,
    provider: TypedProvider,
    before: Seq<UntypedValue>,
    after: Seq<UntypedValue>,
)
    requires
        holds(register, provider, before),
        before.is_prefix_of(after),
    ensures
        holds(register, provider, after),
{
}

/// Popping `n` providers as registers takes exactly the `n` top-most ones off and
/// gives them back. Each of the registers holds the value of its provider, and only
/// those constant values may be new. It fails if there are too few providers, and
/// nothing is popped then, or if no register is left for a constant value. Then the
/// registers of the providers below that one are given back.
pub proof fn lemma_pop_n_as_registers_takes_the_top_n(
    stack: &mut ValueStack,
    n: usize,
    providers: &mut Vec<TypedProvider>,
    registers: &mut Vec<Register>,
    result: Result<(), TranslationError>,
)
    requires
        old(stack).wf(),
        call_ensures(ValueStack::pop_n_as_registers, (stack, n, providers, registers), result),
    ensures
        if n > old(stack)@.providers.len() {
            &&& result matches Err(error)
            &&& error.inner is TooFewProviders
            &&& final(stack)@ == old(stack)@
            &&& final(providers)@.len() == 0
            &&& final(registers)@.len() == 0
        } else {
            let done = final(registers)@.len() as int;
            &&& is_popped(old(stack)@, final(stack)@, n as int)
            &&& are_on_top(old(stack)@, final(providers)@, n as int)
            &&& done <= n
            &&& is_extended(
                old(stack)@.consts,
                final(stack)@.consts,
                final(providers)@.take(done),
            )
            &&& forall|i: int|
                0 <= i < done ==> holds(
                    #[trigger] final(registers)@[i],
                    final(providers)@[i],
                    final(stack)@.consts,
                )
            &&& match result {
                Ok(_) => done == n,
                Err(error) => {
                    &&& error.inner is TooManyFuncLocalConstValues
                    &&& done < n
                    &&& final(providers)@[done] matches Provider::Const(value)
                    &&& !final(stack)@.consts.contains(value.value)
                    &&& final(stack)@.consts.len() == 0x7fff
                },
            }
        },
{
    if n <= old(stack)@.providers.len() {
        lemma_truncated_is_popped(old(stack)@, n as int);
        lemma_interned_registers_hold(old(stack)@.consts, old(stack)@.top(n as int));
    }
}

/// Turning the `n` top-most providers into registers leaves them on the stack. Each
/// of the registers holds the value of its provider, and only those constant values
/// may be new. It fails only if no register is left for a constant value.
pub proof fn lemma_peek_n_as_registers_keeps_the_top_n(
    stack: &mut ValueStack,
    n: usize,
    providers: Seq<TypedProvider>,
    registers: &mut Vec<Register>,
    result: Result<(), TranslationError>,
)
    requires
        old(stack).wf(),
        n <= old(stack)@.providers.len(),
        are_on_top(old(stack)@, providers, n as int),
        call_ensures(ValueStack::peek_n_as_registers, (stack, n, registers), result),
    ensures
        ({
            let done = final(registers)@.len() as int;
            &&& final(stack)@.providers == old(stack)@.providers
            &&& final(stack)@.registers == old(stack)@.registers
            &&& done <= n
            &&& is_extended(old(stack)@.consts, final(stack)@.consts, providers.take(done))
            &&& forall|i: int|
                0 <= i < done ==> holds(
                    #[trigger] final(registers)@[i],
                    providers[i],
                    final(stack)@.consts,
                )
            &&& match result {
                Ok(_) => done == n,
                Err(error) => {
                    &&& error.inner is TooManyFuncLocalConstValues
                    &&& done < n
                    &&& providers[done] matches Provider::Const(value)
                    &&& !final(stack)@.consts.contains(value.value)
                    &&& final(stack)@.consts.len() == 0x7fff
                },
            }
        }),
{
    lemma_interned_registers_hold(old(stack)@.consts, old(stack)@.top(n as int));
    assert(providers =~= old(stack)@.top(n as int)) by {
        assert forall|i: int| 0 <= i < n implies #[trigger] providers[i] == old(stack)@.top(
            n as int,
        )[i] by {}
    }
}

/// Popping providers as registers turns them into the registers that peeking turns
/// them into.
pub proof fn lemma_popped_and_peeked_registers_agree(
    popped: &mut ValueStack,
    peeked: &mut ValueStack,
    n: usize,
    providers: &mut Vec<TypedProvider>,
    popped_registers: &mut Vec<Register>,
    peeked_registers: &mut Vec<Register>,
    popped_result: Result<(), TranslationError>,
    peeked_result: Result<(), TranslationError>,
)
    requires
        old(popped)@ == old(peeked)@,
        n <= old(popped)@.providers.len(),
        call_ensures(
            ValueStack::pop_n_as_registers,
            (popped, n, providers, popped_registers),
            popped_result,
        ),
        call_ensures(
            ValueStack::peek_n_as_registers,
            (peeked, n, peeked_registers),
            peeked_result,
        ),
    ensures
        popped_result == peeked_result,
        final(popped_registers)@ == final(peeked_registers)@,
        final(popped)@.consts == final(peeked)@.consts,
{
}

/// Constant values are allocated from the lowest provider to the top-most one:
/// turning one more provider into a register comes after all providers below it.
pub proof fn lemma_registers_are_taken_from_below(
    below: &mut ValueStack,
    all: &mut ValueStack,
    n: usize,
    one_more: usize,
    below_registers: &mut Vec<Register>,
    all_registers: &mut Vec<Register>,
    results: (Result<(), TranslationError>, Result<(), TranslationError>),
)
    requires
        old(below).wf(),
        old(all).wf(),
        old(below)@.consts == old(all)@.consts,
        old(below)@.providers == old(all)@.providers.drop_last(),
        n < old(all)@.providers.len(),
        one_more == n + 1,
        call_ensures(ValueStack::peek_n_as_registers, (below, n, below_registers), results.0),
        call_ensures(
            ValueStack::peek_n_as_registers,
            (all, one_more, all_registers),
            results.1,
        ),
    ensures
        results.0 is Err ==> {
            &&& results.1 == results.0
            &&& final(all_registers)@ == final(below_registers)@
            &&& final(all)@.consts == final(below)@.consts
        },
        results.0 is Ok ==> {
            &&& final(below_registers)@.is_prefix_of(final(all_registers)@)
            &&& final(below)@.consts.is_prefix_of(final(all)@.consts)
            &&& final(all)@.consts.len() <= final(below)@.consts.len() + 1
        },
{
    let providers = old(all)@.top(n + 1);
    assert(providers.drop_last() =~= old(below)@.top(n as int));
    lemma_interned_registers_hold(old(all)@.consts, providers);
    lemma_interned_registers_hold(old(all)@.consts, providers.drop_last());
}

/// Pushing providers puts all of them on top, in their order, or those before the
/// first register of dynamic space for which none is left. There is one more
/// dynamic register in use for each provider that is tagged as such. The providers
/// below, and the constant values, stay as they are.
pub proof fn lemma_pushed_providers_are_on_top(
    stack: &mut ValueStack,
    providers: &[TypedProvider],
    result: Result<(), TranslationError>,
)
    requires
        old(stack).wf(),
        call_ensures(ValueStack::push_n, (stack, providers), result),
    ensures
        ({
            let height = old(stack)@.providers.len();
            let n = final(stack)@.providers.len() - height;
            &&& 0 <= n <= providers@.len()
            &&& final(stack)@.providers.take(height as int) == old(stack)@.providers
            &&& are_on_top(final(stack)@, providers@.take(n), n)
            &&& final(stack)@.consts == old(stack)@.consts
            &&& is_grown(
                old(stack)@.registers,
                final(stack)@.registers,
                dynamics(final(stack)@.providers.skip(height as int)),
            )
            &&& match result {
                Ok(_) => n == providers@.len(),
                Err(error) => {
                    &&& error.inner is AllocatedTooManyRegisters
                    &&& n < providers@.len()
                    &&& providers@[n] matches Provider::Register(register)
                    &&& final(stack)@.registers.len_locals <= register.index
                    &&& register.index < final(stack)@.registers.max_dynamic
                    &&& final(stack)@.registers.next_dynamic >= 0x7fff
                },
            }
        }),
{
    let before = old(stack)@;
    let after = final(stack)@;
    let height = before.height() as int;
    let n = after.height() - height;
    lemma_push_all_appends(before, providers@);
    lemma_push_all_grows(before, providers@);
    assert(after.providers.take(height) =~= before.providers);
    assert forall|i: int| 0 <= i < n implies is_provider(
        after.providers[height + i],
        #[trigger] providers@.take(n)[i],
    ) by {
        let untagged = untagged_all(after.providers);
        assert(untagged[height + i] == after.providers[height + i].untagged());
        assert(untagged[height + i] == providers@.take(n)[i]);
    }
}

/// Pushing providers is pushing one after the other, until one cannot be pushed.
pub proof fn lemma_providers_are_pushed_one_after_the_other(
    init: &mut ValueStack,
    last: &mut ValueStack,
    all: &mut ValueStack,
    init_providers: &[TypedProvider],
    provider: TypedProvider,
    all_providers: &[TypedProvider],
    results: (Result<(), TranslationError>, Result<(), TranslationError>, Result<
        (),
        TranslationError,
    >),
)
    requires
        all_providers@ == init_providers@.push(provider),
        old(init)@ == old(all)@,
        call_ensures(ValueStack::push_n, (all, all_providers), results.2),
        call_ensures(ValueStack::push_n, (init, init_providers), results.0),
        old(last)@ == final(init)@,
        call_ensures(ValueStack::push_provider, (last, provider), results.1),
    ensures
        match results.0 {
            Ok(_) => results.2 == results.1 && final(all)@ == final(last)@,
            Err(_) => results.2 == results.0 && final(all)@ == final(init)@,
        },
{
    assert(all_providers@.drop_last() =~= init_providers@);
}

/// Pushing providers allocates a dynamic register for each that is tagged as such.
proof fn lemma_push_all_grows(stack: ValueStackView, providers: Seq<TypedProvider>)
    requires
        stack.registers.next_dynamic <= stack.registers.max_dynamic,
    ensures
        ({
            let after = stack.push_all(providers).0;
            &&& after.height() >= stack.height()
            &&& is_grown(
                stack.registers,
                after.registers,
                dynamics(after.providers.skip(stack.height() as int)),
            )
        }),
    decreases providers.len(),
{
    let height = stack.height() as int;
    let after = stack.push_all(providers).0;
    lemma_dynamics_are_counted(after.providers.skip(height));
    if providers.len() == 0 {
        assert(stack.providers.skip(height) =~= Seq::<TaggedProvider>::empty());
    } else {
        let before = stack.push_all(providers.drop_last()).0;
        lemma_push_all_grows(stack, providers.drop_last());
        lemma_dynamics_are_counted(before.providers.skip(height));
        if after != before {
            let added = after.providers.skip(height);
            assert(added.drop_last() =~= before.providers.skip(height));
            assert(added.last() == after.providers.last());
        }
    }
}

/// Pushing dynamic registers allocates the next ones, puts them on top in ascending
/// order, and returns the first one. Peeking returns the same one, puts nothing on
/// the stack, and leaves the registers free. Both count them among the registers
/// that the function needs. They fail only if there are not enough registers left,
/// and change nothing then.
pub proof fn lemma_dynamic_spans_are_the_next_registers(
    pushed: &mut ValueStack,
    peeked: &mut ValueStack,
    n: usize,
    pushed_result: Result<RegisterSpan, TranslationError>,
    peeked_result: Result<RegisterSpan, TranslationError>,
)
    requires
        old(pushed).wf(),
        old(peeked)@ == old(pushed)@,
        call_ensures(ValueStack::push_dynamic_n, (pushed, n), pushed_result),
        call_ensures(ValueStack::peek_dynamic_n, (peeked, n), peeked_result),
    ensures
        pushed_result == peeked_result,
        final(pushed)@.consts == old(pushed)@.consts,
        final(peeked)@.consts == old(pushed)@.consts,
        final(peeked)@.providers == old(pushed)@.providers,
        match pushed_result {
            Ok(span) => {
                let height = old(pushed)@.providers.len();
                let next = old(pushed)@.registers.next_dynamic;
                &&& span.head.index == next
                &&& next + n <= 0x7fff
                &&& final(pushed)@.providers.len() == height + n
                &&& final(pushed)@.providers.take(height as int) == old(pushed)@.providers
                &&& forall|i: int|
                    0 <= i < n ==> {
                        &&& #[trigger] final(pushed)@.providers[height + i] matches
                            TaggedProvider::Dynamic(register)
                        &&& register.index == next + i
                    }
                &&& is_grown(old(pushed)@.registers, final(pushed)@.registers, n as int)
                &&& final(peeked)@.registers == (RegisterAllocView {
                    next_dynamic: next,
                    ..final(pushed)@.registers
                })
            },
            Err(error) => {
                &&& error.inner is AllocatedTooManyRegisters
                &&& old(pushed)@.registers.next_dynamic + n > 0x7fff
                &&& final(pushed)@ == old(pushed)@
                &&& final(peeked)@ == old(pushed)@
            },
        },
{
    assert(final(pushed)@.providers.take(old(pushed)@.providers.len() as int)
        =~= old(pushed)@.providers);
}

/// Adjusting the stack for a call pops as many providers as there are parameters,
/// gives them back, and pushes as many dynamic registers as there are results. It
/// is popping and then pushing. If there are too few providers it fails, and nothing
/// changes.
pub proof fn lemma_adjusting_pops_params_and_pushes_results(
    stack: &mut ValueStack,
    func_type: &FuncType,
    counts: (usize, usize),
    buffer: &mut Vec<TypedProvider>,
    result: Result<RegisterSpan, TranslationError>,
    popped: &mut ValueStack,
    popped_providers: &mut Vec<TypedProvider>,
    pushed: &mut ValueStack,
    pushed_result: Result<RegisterSpan, TranslationError>,
)
    requires
        counts.0 == func_type.params@.len(),
        counts.1 == func_type.results@.len(),
        call_ensures(ValueStack::adjust_for_call, (stack, func_type, buffer), result),
        func_type.params@.len() <= old(stack)@.providers.len() ==> {
            &&& old(popped)@ == old(stack)@
            &&& call_ensures(
                ValueStack::pop_n,
                (popped, counts.0, popped_providers),
                (),
            )
            &&& old(pushed)@ == final(popped)@
            &&& call_ensures(
                ValueStack::push_dynamic_n,
                (pushed, counts.1),
                pushed_result,
            )
        },
    ensures
        if func_type.params@.len() <= old(stack)@.providers.len() {
            &&& result == pushed_result
            &&& final(stack)@ == final(pushed)@
            &&& final(buffer)@ == final(popped_providers)@
        } else {
            &&& result matches Err(error)
            &&& error.inner is TooFewProviders
            &&& final(stack)@ == old(stack)@
            &&& final(buffer)@.len() == 0
        },
{
}

/// Registering the user of a register records it if the register is in storage
/// space, behind all others, and changes nothing else.
pub proof fn lemma_users_of_a_stack_are_recorded(stack: &mut ValueStack, reg: Register, user: Instr)
    requires
        call_ensures(ValueStack::register_user, (stack, reg, user), ()),
    ensures
        final(stack)@.providers == old(stack)@.providers,
        final(stack)@.consts == old(stack)@.consts,
        final(stack)@.registers == (RegisterAllocView {
            users: if old(stack)@.registers.min_storage < reg.index {
                old(stack)@.registers.users.push(StorageUser { register: reg, user })
            } else {
                old(stack)@.registers.users
            },
            ..old(stack)@.registers
        }),
{
}

/// Defragmenting a stack ends the allocation of registers. No register is in
/// storage space, so that nothing has to be adjusted.
pub proof fn lemma_defragmenting_a_stack_adjusts_nothing(
    stack: &mut ValueStack,
    encoder: &mut InstrEncoder,
)
    requires
        old(stack).wf(),
        call_ensures(ValueStack::defrag::<InstrEncoder>, (stack, encoder), ()),
    ensures
        final(encoder)@ == old(encoder)@,
        final(stack)@ == (ValueStackView {
            registers: RegisterAllocView {
                phase: AllocPhase::Defrag,
                users: Seq::empty(),
                ..old(stack)@.registers
            },
            ..old(stack)@
        }),
{
}

/// The stack takes what it is given: a valid stack can be pushed to and popped from
/// as long as there are providers, and dynamic registers can be pushed once the
/// registration of local variables is finished.
pub proof fn lemma_valid_stacks_can_be_used(
    stack: &mut ValueStack,
    value: TypedValue,
    local_index: u32,
    n: usize,
    reg: Register,
    provider: TypedProvider,
    pushed: &[TypedProvider],
    providers: &mut Vec<TypedProvider>,
    registers: &mut Vec<Register>,
    func_type: &FuncType,
    encoder: &mut InstrEncoder,
)
    requires
        old(stack).wf(),
    ensures
        call_requires(ValueStack::push_const::<TypedValue>, (stack, value)),
        call_requires(ValueStack::push_local, (stack, local_index)),
        old(stack)@.registers.phase is Alloc ==> {
            &&& call_requires(ValueStack::push_dynamic, (stack,))
            &&& call_requires(ValueStack::push_dynamic_n, (stack, n))
            &&& call_requires(ValueStack::peek_dynamic_n, (stack, n))
        },
        old(stack)@.registers.phase is Init ==> {
            &&& call_requires(ValueStack::register_locals, (stack, local_index))
            &&& call_requires(ValueStack::finish_register_locals, (stack,))
        },
        old(stack)@.providers.len() >= 1 ==> {
            &&& call_requires(ValueStack::pop, (stack,))
            &&& call_requires(ValueStack::pop_as_register, (stack,))
        },
        old(stack)@.providers.len() >= 2 ==> {
            &&& call_requires(ValueStack::pop2, (stack,))
            &&& call_requires(ValueStack::pop2_as_registers, (stack,))
        },
        old(stack)@.providers.len() >= 3 ==> {
            &&& call_requires(ValueStack::pop3, (stack,))
            &&& call_requires(ValueStack::pop3_as_registers, (stack,))
        },
        n <= old(stack)@.providers.len() ==> {
            &&& call_requires(ValueStack::trunc, (stack, n))
            &&& call_requires(ValueStack::pop_n, (stack, n, providers))
            &&& call_requires(ValueStack::peek_n, (stack, n, providers))
            &&& call_requires(ValueStack::peek_n_as_registers, (stack, n, registers))
        },
        call_requires(ValueStack::pop_n_as_registers, (stack, n, providers, registers)),
        call_requires(ValueStack::alloc_const::<UntypedValue>, (stack, value.value)),
        old(stack)@.registers.phase is Alloc ==> {
            &&& call_requires(ValueStack::push_register, (stack, reg))
            &&& call_requires(ValueStack::push_provider, (stack, provider))
            &&& call_requires(ValueStack::push_n, (stack, pushed))
            &&& call_requires(ValueStack::adjust_for_call, (stack, func_type, providers))
            &&& call_requires(ValueStack::defrag::<InstrEncoder>, (stack, encoder))
        },
{
}

} // verus!
