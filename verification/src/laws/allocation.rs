//! Laws of register allocation, of the provider stack and of constant values.
use crate::bytecode::branch::Instr;
use crate::bytecode::instruction::Instruction;
use crate::bytecode::provider::{Provider, TypedProvider};
use crate::bytecode::register::{Register, RegisterSpan};
use crate::encoder::{InstrEncoder, InstrEncoderView};
use crate::error::TranslationError;
use crate::laws::bytecode::is_replaced;
use crate::stack::consts::{FuncLocalConsts, FuncLocalConstsIter};
use crate::stack::provider::{ProviderStack, TaggedProvider};
use crate::stack::register_alloc::{
    AllocPhase, DefragRegister, RegisterAlloc, RegisterAllocView, StorageUser,
};
use crate::value::{TypedValue, UntypedValue};
use vstd::prelude::*;

verus! {

/// Whether nothing is allocated: registration has not finished, no register is in
/// use, and storage registers start at the greatest index.
pub open spec fn is_new_allocation(alloc: RegisterAllocView) -> bool {
    &&& alloc.phase is Init
    &&& alloc.len_locals == 0
    &&& alloc.next_dynamic == 0
    &&& alloc.max_dynamic == 0
    &&& alloc.next_storage == 0x7fff
    &&& alloc.min_storage == 0x7fff
    &&& alloc.users.len() == 0
}

/// A new allocator has nothing allocated, and neither has one that was reset.
pub proof fn lemma_new_allocator_is_empty(created: RegisterAlloc, alloc: &mut RegisterAlloc)
    requires
        call_ensures(<RegisterAlloc as Default>::default, (), created),
        call_ensures(RegisterAlloc::reset, (alloc,), ()),
    ensures
        is_new_allocation(created@),
        is_new_allocation(final(alloc)@),
{
}

/// What an allocator tells: the number of local variables, the number of all
/// registers, and to which space a register belongs. The registers are the local
/// variables and the greatest number of dynamic and storage registers so far.
pub proof fn lemma_allocator_counts_registers(
    alloc: &RegisterAlloc,
    reg: Register,
    len_locals: u16,
    len_registers: u16,
    is_dynamic: bool,
    is_storage: bool,
)
    requires
        call_ensures(RegisterAlloc::len_locals, (alloc,), len_locals),
        call_ensures(RegisterAlloc::len_registers, (alloc,), len_registers),
        call_ensures(RegisterAlloc::is_dynamic, (alloc, reg), is_dynamic),
        call_ensures(RegisterAlloc::is_storage, (alloc, reg), is_storage),
    ensures
        len_locals == alloc@.len_locals,
        len_registers == alloc@.max_dynamic + (0x7fff - alloc@.min_storage),
        is_dynamic == (alloc@.len_locals <= reg.index < alloc@.max_dynamic),
        is_storage == (alloc@.min_storage < reg.index),
{
}

/// Registering local variables adds to their number, and dynamic registers start
/// right behind them. It fails only if there would be more than the greatest index
/// allows, and changes nothing then.
pub proof fn lemma_registered_locals_add_up(
    alloc: &mut RegisterAlloc,
    amount: u32,
    result: Result<(), TranslationError>,
)
    requires
        call_ensures(RegisterAlloc::register_locals, (alloc, amount), result),
    ensures
        match result {
            Ok(_) => {
                &&& final(alloc)@.len_locals == old(alloc)@.len_locals + amount
                &&& final(alloc)@.next_dynamic == old(alloc)@.len_locals + amount
                &&& final(alloc)@.max_dynamic == old(alloc)@.len_locals + amount
                &&& final(alloc)@.phase == old(alloc)@.phase
                &&& final(alloc)@.next_storage == old(alloc)@.next_storage
                &&& final(alloc)@.min_storage == old(alloc)@.min_storage
                &&& final(alloc)@.users == old(alloc)@.users
            },
            Err(error) => {
                &&& error.inner is AllocatedTooManyRegisters
                &&& old(alloc)@.len_locals + amount > 0x7fff
                &&& final(alloc)@ == old(alloc)@
            },
        },
{
}

/// Registering twice is registering the sum, and succeeds if and only if that
/// does.
pub proof fn lemma_registering_twice_is_registering_the_sum(
    first: &mut RegisterAlloc,
    second: &mut RegisterAlloc,
    at_once: &mut RegisterAlloc,
    amounts: (u32, u32, u32),
    results: (Result<(), TranslationError>, Result<(), TranslationError>, Result<
        (),
        TranslationError,
    >),
)
    requires
        amounts.0 + amounts.1 == amounts.2,
        old(first)@ == old(at_once)@,
        call_ensures(RegisterAlloc::register_locals, (first, amounts.0), results.0),
        old(second)@ == final(first)@,
        call_ensures(RegisterAlloc::register_locals, (second, amounts.1), results.1),
        call_ensures(RegisterAlloc::register_locals, (at_once, amounts.2), results.2),
    ensures
        results.0 is Ok && results.1 is Ok <==> results.2 is Ok,
        results.2 is Ok ==> final(second)@ == final(at_once)@,
{
}

/// Finishing the registration of local variables starts the allocation of
/// registers, and changes nothing else.
pub proof fn lemma_finishing_starts_allocation(alloc: &mut RegisterAlloc)
    requires
        call_ensures(RegisterAlloc::finish_register_locals, (alloc,), ()),
    ensures
        final(alloc)@ == (RegisterAllocView { phase: AllocPhase::Alloc, ..old(alloc)@ }),
{
}

/// Dynamic registers are allocated one after the other from the next one on: the
/// span starts there, and the next one is then `n` further. The greatest number so
/// far is kept up to date. Allocating fails only if it would reach the storage
/// registers, and changes nothing then.
pub proof fn lemma_dynamic_registers_follow_one_another(
    alloc: &mut RegisterAlloc,
    n: usize,
    result: Result<RegisterSpan, TranslationError>,
)
    requires
        old(alloc)@.valid(),
        call_ensures(RegisterAlloc::push_dynamic_n, (alloc, n), result),
    ensures
        match result {
            Ok(span) => {
                let next = old(alloc)@.next_dynamic + n;
                let max = old(alloc)@.max_dynamic;
                &&& span.head.index == old(alloc)@.next_dynamic
                &&& next <= old(alloc)@.min_storage
                &&& final(alloc)@ == (RegisterAllocView {
                    next_dynamic: next,
                    max_dynamic: if max < next {
                        next
                    } else {
                        max
                    },
                    ..old(alloc)@
                })
            },
            Err(error) => {
                &&& error.inner is AllocatedTooManyRegisters
                &&& old(alloc)@.next_dynamic + n > old(alloc)@.min_storage
                &&& final(alloc)@ == old(alloc)@
            },
        },
{
}

/// Allocating one dynamic register is allocating a span of one.
pub proof fn lemma_one_dynamic_register_is_a_span(
    alloc: &mut RegisterAlloc,
    other: &mut RegisterAlloc,
    result: Result<Register, TranslationError>,
    span: Result<RegisterSpan, TranslationError>,
)
    requires
        old(alloc)@ == old(other)@,
        call_ensures(RegisterAlloc::push_dynamic, (alloc,), result),
        call_ensures(RegisterAlloc::push_dynamic_n, (other, 1), span),
    ensures
        final(alloc)@ == final(other)@,
        match (result, span) {
            (Ok(register), Ok(span)) => register == span.head,
            (Err(a), Err(b)) => a == b,
            _ => false,
        },
{
}

/// Freeing dynamic registers undoes their allocation. Only the greatest number so
/// far stays.
pub proof fn lemma_freeing_undoes_allocating(
    pushed: &mut RegisterAlloc,
    popped: &mut RegisterAlloc,
    n: usize,
    result: Result<RegisterSpan, TranslationError>,
)
    requires
        old(pushed)@.valid(),
        call_ensures(RegisterAlloc::push_dynamic_n, (pushed, n), result),
        result is Ok,
        old(popped)@ == final(pushed)@,
        call_ensures(RegisterAlloc::pop_dynamic_n, (popped, n), ()),
    ensures
        final(popped)@ == (RegisterAllocView {
            max_dynamic: final(pushed)@.max_dynamic,
            ..old(pushed)@
        }),
        final(popped)@.max_dynamic >= old(pushed)@.next_dynamic + n,
{
}

/// Freeing dynamic registers makes the ones before them the next ones, and changes
/// nothing else.
pub proof fn lemma_freed_registers_are_next(alloc: &mut RegisterAlloc, n: usize)
    requires
        call_ensures(RegisterAlloc::pop_dynamic_n, (alloc, n), ()),
    ensures
        final(alloc)@ == (RegisterAllocView {
            next_dynamic: old(alloc)@.next_dynamic - n,
            ..old(alloc)@
        }),
{
}

/// Storage registers are allocated downwards. The smallest next one so far is kept
/// up to date. Allocating fails only if there is none left, and changes nothing
/// then.
pub proof fn lemma_storage_registers_grow_downwards(
    alloc: &mut RegisterAlloc,
    result: Result<Register, TranslationError>,
)
    requires
        old(alloc)@.valid(),
        call_ensures(RegisterAlloc::push_storage, (alloc,), result),
    ensures
        match result {
            Ok(register) => {
                let next = old(alloc)@.next_storage - 1;
                let min = old(alloc)@.min_storage;
                &&& register.index == old(alloc)@.next_storage
                &&& register.index > old(alloc)@.max_dynamic
                &&& final(alloc)@ == (RegisterAllocView {
                    next_storage: next,
                    min_storage: if next < min {
                        next
                    } else {
                        min
                    },
                    ..old(alloc)@
                })
            },
            Err(error) => {
                &&& error.inner is AllocatedTooManyRegisters
                &&& old(alloc)@.next_storage <= old(alloc)@.max_dynamic
                &&& final(alloc)@ == old(alloc)@
            },
        },
{
}

/// Freeing a storage register undoes its allocation, and changes nothing else.
pub proof fn lemma_freed_storage_is_next(alloc: &mut RegisterAlloc)
    requires
        call_ensures(RegisterAlloc::pop_storage, (alloc,), ()),
    ensures
        final(alloc)@ == (RegisterAllocView {
            next_storage: old(alloc)@.next_storage + 1,
            ..old(alloc)@
        }),
{
}

/// The register or constant value of a provider, without its tag.
pub proof fn lemma_untagged_provider_is_the_same(provider: TaggedProvider, untagged: TypedProvider)
    requires
        call_ensures(TaggedProvider::untag, (provider,), untagged),
    ensures
        match (provider, untagged) {
            (TaggedProvider::Local(a), Provider::Register(b)) => a == b,
            (TaggedProvider::Dynamic(a), Provider::Register(b)) => a == b,
            (TaggedProvider::Storage(a), Provider::Register(b)) => a == b,
            (TaggedProvider::Const(a), Provider::Const(b)) => a == b,
            _ => false,
        },
{
}

/// Popping a provider gives it back without its tag, and frees the last register of
/// its space.
pub proof fn lemma_popped_providers_free_their_register(
    alloc: &mut RegisterAlloc,
    provider: TaggedProvider,
    result: TypedProvider,
)
    requires
        call_ensures(RegisterAlloc::pop_provider, (alloc, provider), result),
    ensures
        match provider {
            TaggedProvider::Local(register) => {
                &&& result == TypedProvider::Register(register)
                &&& final(alloc)@ == old(alloc)@
            },
            TaggedProvider::Dynamic(register) => {
                &&& result == TypedProvider::Register(register)
                &&& final(alloc)@ == (RegisterAllocView {
                    next_dynamic: old(alloc)@.next_dynamic - 1,
                    ..old(alloc)@
                })
            },
            TaggedProvider::Storage(register) => {
                &&& result == TypedProvider::Register(register)
                &&& final(alloc)@ == (RegisterAllocView {
                    next_storage: old(alloc)@.next_storage + 1,
                    ..old(alloc)@
                })
            },
            TaggedProvider::Const(value) => {
                &&& result == TypedProvider::Const(value)
                &&& final(alloc)@ == old(alloc)@
            },
        },
{
}

/// Users of storage registers are recorded in their order, others are not.
pub proof fn lemma_users_of_storage_are_recorded(
    alloc: &mut RegisterAlloc,
    reg: Register,
    user: Instr,
)
    requires
        call_ensures(RegisterAlloc::register_user, (alloc, reg, user), ()),
    ensures
        final(alloc)@ == (RegisterAllocView { users: final(alloc)@.users, ..old(alloc)@ }),
        final(alloc)@.users == (if old(alloc)@.min_storage < reg.index {
            old(alloc)@.users.push(StorageUser { register: reg, user })
        } else {
            old(alloc)@.users
        }),
{
}

/// Defragmenting leaves no users, and changes the phase and nothing else of the
/// allocation.
pub proof fn lemma_defragmenting_ends_allocation<S: DefragRegister>(
    alloc: &mut RegisterAlloc,
    state: &mut S,
)
    requires
        call_ensures(RegisterAlloc::defrag::<S>, (alloc, state), ()),
    ensures
        final(alloc)@ == (RegisterAllocView {
            phase: AllocPhase::Defrag,
            users: Seq::empty(),
            ..old(alloc)@
        }),
{
}

/// The registers of an instruction: those that it reads and that it writes.
pub open spec fn registers_of(instruction: Instruction) -> Seq<Register> {
    match instruction {
        Instruction::BranchEqz { condition, .. } => seq![condition],
        Instruction::BranchNez { condition, .. } => seq![condition],
        Instruction::Copy { result, value } => seq![result, value],
        Instruction::CopyImm32 { result, .. } => seq![result],
        Instruction::CopyI64Imm32 { result, .. } => seq![result],
        Instruction::CopyF64Imm32 { result, .. } => seq![result],
        _ => Seq::empty(),
    }
}

/// What defragmenting makes of the encoder after the first `n` users.
proof fn lemma_defragged_instructions(
    alloc: RegisterAllocView,
    encoder: InstrEncoderView,
    n: nat,
    i: int,
)
    requires
        n <= alloc.users.len(),
        0 <= i < encoder.instrs.len(),
        forall|k: int|
            0 <= k < n ==> (#[trigger] alloc.users[k]).user.index < encoder.instrs.len(),
    ensures
        ({
            let after = alloc.defragged::<InstrEncoder>(encoder, n);
            &&& after.labels == encoder.labels
            &&& after.instrs.len() == encoder.instrs.len()
            &&& (forall|k: int| 0 <= k < n ==> (#[trigger] alloc.users[k]).user.index != i)
                ==> after.instrs[i] == encoder.instrs[i]
        }),
    decreases n,
{
    if n > 0 {
        lemma_defragged_instructions(alloc, encoder, (n - 1) as nat, i);
        assert(alloc.users[n - 1].user.index < encoder.instrs.len());
    }
}

/// What defragmenting makes of an instruction that one user refers to.
proof fn lemma_defragged_instruction(
    alloc: RegisterAllocView,
    encoder: InstrEncoderView,
    n: nat,
    k: int,
)
    requires
        0 <= k < n <= alloc.users.len(),
        forall|m: int|
            0 <= m < n ==> (#[trigger] alloc.users[m]).user.index < encoder.instrs.len(),
        forall|m: int|
            0 <= m < n && m != k ==> (#[trigger] alloc.users[m]).user != alloc.users[k].user,
    ensures
        ({
            let user = alloc.users[k];
            let i = user.user.index as int;
            alloc.defragged::<InstrEncoder>(encoder, n).instrs[i]
                == encoder.instrs[i].with_register(user.register, alloc.compacted(user.register))
        }),
    decreases n,
{
    let i = alloc.users[k].user.index as int;
    lemma_defragged_instructions(alloc, encoder, (n - 1) as nat, i);
    if n - 1 == k {
        assert forall|m: int| 0 <= m < n - 1 implies (#[trigger] alloc.users[m]).user.index
            != i by {
            assert(alloc.users[m].user != alloc.users[k].user);
        }
    } else {
        lemma_defragged_instruction(alloc, encoder, (n - 1) as nat, k);
        assert(alloc.users[n - 1].user != alloc.users[k].user);
    }
}

/// Defragmenting changes no instruction but those of registered users, and no label.
pub proof fn lemma_defragmenting_changes_only_users(
    alloc: &mut RegisterAlloc,
    encoder: &mut InstrEncoder,
)
    requires
        forall|m: int|
            0 <= m < old(alloc)@.users.len() ==> (#[trigger] old(alloc)@.users[m]).user.index
                < old(encoder)@.instrs.len(),
        call_ensures(RegisterAlloc::defrag::<InstrEncoder>, (alloc, encoder), ()),
    ensures
        final(encoder)@.labels == old(encoder)@.labels,
        final(encoder)@.instrs.len() == old(encoder)@.instrs.len(),
        forall|i: int|
            0 <= i < old(encoder)@.instrs.len() && !is_storage_user(old(alloc)@, i)
                ==> #[trigger] final(encoder)@.instrs[i] == old(encoder)@.instrs[i],
{
    let len = old(alloc)@.users.len();
    if len > 0 {
        assert(old(alloc)@.users[0].user.index < old(encoder)@.instrs.len());
        lemma_defragged_instructions(old(alloc)@, old(encoder)@, len, 0);
    }
    assert forall|i: int|
        0 <= i < old(encoder)@.instrs.len() && !is_storage_user(old(alloc)@, i) implies (
    #[trigger] final(encoder)@.instrs[i]) == old(encoder)@.instrs[i] by {
        lemma_defragged_instructions(old(alloc)@, old(encoder)@, len, i);
    }
}

/// Whether the instruction at the index is that of a registered user.
pub open spec fn is_storage_user(alloc: RegisterAllocView, i: int) -> bool {
    exists|m: int| 0 <= m < alloc.users.len() && (#[trigger] alloc.users[m]).user.index == i
}

/// Defragmenting closes the gap: in the instruction of a registered user the
/// storage register is replaced by the one that lies as far behind the dynamic
/// registers as the storage register lies behind the start of the storage
/// registers. Other registers stay as they are. The user is one that is registered
/// once.
pub proof fn lemma_defragmenting_closes_the_gap(
    alloc: &mut RegisterAlloc,
    encoder: &mut InstrEncoder,
    k: int,
)
    requires
        old(alloc)@.valid(),
        forall|m: int|
            0 <= m < old(alloc)@.users.len() ==> (#[trigger] old(alloc)@.users[m]).user.index
                < old(encoder)@.instrs.len(),
        call_ensures(RegisterAlloc::defrag::<InstrEncoder>, (alloc, encoder), ()),
        0 <= k < old(alloc)@.users.len(),
        forall|m: int|
            0 <= m < old(alloc)@.users.len() && m != k ==> (#[trigger] old(alloc)@.users[m]).user
                != old(alloc)@.users[k].user,
    ensures
        ({
            let StorageUser { register, user } = old(alloc)@.users[k];
            let before = registers_of(old(encoder)@.instrs[user.index as int]);
            let after = registers_of(final(encoder)@.instrs[user.index as int]);
            let to = Register {
                index: (old(alloc)@.max_dynamic + (register.index - old(alloc)@.min_storage - 1))
                    as i16,
            };
            &&& after.len() == before.len()
            &&& forall|j: int|
                0 <= j < before.len() ==> is_replaced(
                    #[trigger] before[j],
                    after[j],
                    register,
                    to,
                )
        }),
{
    let len = old(alloc)@.users.len();
    lemma_defragged_instruction(old(alloc)@, old(encoder)@, len, k);
}

/// Providers are pushed on top and popped from there.
pub proof fn lemma_provider_stack_is_a_stack(
    local: &mut ProviderStack,
    dynamic: &mut ProviderStack,
    constant: &mut ProviderStack,
    stack: &mut ProviderStack,
    register: Register,
    value: TypedValue,
    popped: TaggedProvider,
)
    requires
        call_ensures(ProviderStack::push_local, (local, register), ()),
        call_ensures(ProviderStack::push_dynamic, (dynamic, register), ()),
        call_ensures(ProviderStack::push_const, (constant, value), ()),
        old(stack)@.len() > 0,
        call_ensures(ProviderStack::pop, (stack,), popped),
    ensures
        final(local)@ == old(local)@.push(TaggedProvider::Local(register)),
        final(dynamic)@ == old(dynamic)@.push(TaggedProvider::Dynamic(register)),
        final(constant)@ == old(constant)@.push(TaggedProvider::Const(value)),
        old(stack)@ == final(stack)@.push(popped),
{
    assert(old(stack)@ =~= final(stack)@.push(popped));
}

/// The top-most provider of a stack of providers.
pub proof fn lemma_provider_stack_tells_its_last(stack: &ProviderStack, top: TaggedProvider)
    requires
        0 < stack@.len(),
        call_ensures(ProviderStack::peek, (stack,), top),
    ensures
        top == stack@[stack@.len() - 1],
{
}

/// What a provider stack tells: its height, and its top-most providers in their
/// order. A new one, and one that was reset, has none.
pub proof fn lemma_provider_stack_tells_its_top(
    stack: &ProviderStack,
    len: usize,
    n: usize,
    providers: &[TaggedProvider],
    created: ProviderStack,
    other: &mut ProviderStack,
)
    requires
        n <= stack@.len(),
        call_ensures(ProviderStack::len, (stack,), len),
        call_ensures(ProviderStack::peek_n, (stack, n), providers),
        call_ensures(<ProviderStack as Default>::default, (), created),
        call_ensures(ProviderStack::reset, (other,), ()),
    ensures
        len == stack@.len(),
        providers@.len() == n,
        forall|i: int|
            0 <= i < n ==> #[trigger] providers@[i] == stack@[stack@.len() - n + i],
        created@.len() == 0,
        final(other)@.len() == 0,
{
}

/// An allocated constant value is in the register that is returned: the register
/// `-1 - i` is that of the value at place `i`. A value that is there already
/// changes nothing, another one comes behind all others. It fails only for another
/// one if there are as many as there are negative indices, less one, and changes
/// nothing then.
pub proof fn lemma_constants_are_in_their_register(
    consts: &mut FuncLocalConsts,
    value: UntypedValue,
    result: Result<Register, TranslationError>,
)
    requires
        old(consts).wf(),
        call_ensures(FuncLocalConsts::alloc_const, (consts, value), result),
    ensures
        match result {
            Ok(register) => {
                &&& -(final(consts)@.len() as int) <= register.index < 0
                &&& final(consts)@[-1 - register.index] == value
                &&& final(consts)@ == (if old(consts)@.contains(value) {
                    old(consts)@
                } else {
                    old(consts)@.push(value)
                })
            },
            Err(error) => {
                &&& error.inner is TooManyFuncLocalConstValues
                &&& !old(consts)@.contains(value)
                &&& old(consts)@.len() == 0x7fff
                &&& final(consts)@ == old(consts)@
            },
        },
{
    if result is Ok && !old(consts)@.contains(value) {
        assert(final(consts)@[old(consts)@.len() as int] == value);
    }
}

/// Constant values are counted, and come in reversed order: the last one first.
pub proof fn lemma_constants_come_in_reverse(
    consts: &FuncLocalConsts,
    len: u16,
    iter: FuncLocalConstsIter,
    created: FuncLocalConsts,
    other: &mut FuncLocalConsts,
)
    requires
        call_ensures(FuncLocalConsts::len_consts, (consts,), len),
        call_ensures(FuncLocalConsts::iter, (consts,), iter),
        call_ensures(<FuncLocalConsts as Default>::default, (), created),
        call_ensures(FuncLocalConsts::reset, (other,), ()),
    ensures
        len == consts@.len(),
        iter@.len() == consts@.len(),
        forall|i: int|
            0 <= i < iter@.len() ==> #[trigger] iter@[i] == consts@[consts@.len() - 1 - i],
        created@.len() == 0,
        final(other)@.len() == 0,
{
}

/// Iterating over constant values gives the next one and goes on behind it, until
/// none are left.
pub proof fn lemma_constants_come_one_after_the_other(
    iter: &mut FuncLocalConstsIter,
    result: Option<UntypedValue>,
)
    requires
        call_ensures(FuncLocalConstsIter::next, (iter,), result),
    ensures
        match result {
            Some(value) => {
                &&& old(iter)@.len() == final(iter)@.len() + 1
                &&& value == old(iter)@[0]
                &&& forall|i: int|
                    0 <= i < final(iter)@.len() ==> #[trigger] final(iter)@[i] == old(iter)@[i + 1]
            },
            None => old(iter)@.len() == 0 && final(iter)@.len() == 0,
        },
{
}

} // verus!
