//! Laws of registers, branches, fuel, immediates and instructions.
use crate::bytecode::branch::{BranchOffset, Instr};
use crate::bytecode::fuel::BlockFuel;
use crate::bytecode::immediate::{AnyConst32, F64Const32, I64Const32};
use crate::bytecode::instruction::Instruction;
use crate::bytecode::provider::{Provider, TypedProvider};
use crate::bytecode::register::{Register, RegisterSpan, RegisterSpanIter};
use crate::error::{TranslationError, TranslationErrorInner};
use crate::value::F32;
use vstd::prelude::*;

verus! {

/// Creating an error keeps its reason.
pub proof fn lemma_error_has_its_reason(inner: TranslationErrorInner, error: TranslationError)
    requires
        call_ensures(TranslationError::new, (inner,), error),
    ensures
        error.inner == inner,
{
}

/// A reference to an instruction is its index, and gives it back.
pub proof fn lemma_instr_is_its_index(index: usize, instr: Instr, again: usize)
    requires
        call_ensures(Instr::from_usize, (index,), instr),
        call_ensures(Instr::into_usize, (instr,), again),
    ensures
        instr.index == index,
        again == index,
{
}

/// A branch reaches its target: going forward from the source by the offset leads
/// to the target. There is no offset only if it needs more than 32 bits.
pub proof fn lemma_branch_reaches_its_target(
    src: Instr,
    dst: Instr,
    result: Result<BranchOffset, TranslationError>,
)
    requires
        call_ensures(BranchOffset::from_src_to_dst, (src, dst), result),
    ensures
        match result {
            Ok(offset) => src.index + offset.offset == dst.index,
            Err(error) => {
                &&& error.inner is BranchOffsetOutOfBounds
                &&& !(-0x8000_0000 <= dst.index - src.index < 0x8000_0000)
            },
        },
{
}

/// An uninitialized offset is zero, and the number of an offset is that of
/// instructions to go forward. Initializing replaces the offset.
pub proof fn lemma_branch_offset_is_its_number(
    uninit: BranchOffset,
    offset: &mut BranchOffset,
    new_offset: BranchOffset,
    number: i32,
)
    requires
        call_ensures(BranchOffset::uninit, (), uninit),
        call_ensures(BranchOffset::init, (offset, new_offset), ()),
        call_ensures(BranchOffset::to_i32, (new_offset,), number),
    ensures
        uninit.offset == 0,
        *final(offset) == new_offset,
        number == new_offset.offset,
{
}

/// The fuel of a block is the number of units that it is created with. Numbers
/// that need more than 32 bits are rejected.
pub proof fn lemma_fuel_is_its_units(amount: u64, result: Result<BlockFuel, TranslationError>)
    requires
        call_ensures(BlockFuel::from_u64, (amount,), result),
    ensures
        match result {
            Ok(fuel) => fuel.units == amount,
            Err(error) => error.inner is BlockFuelOutOfBounds && amount > 0xffff_ffff,
        },
{
}

/// Bumping fuel adds to it. It fails only if the sum needs more than 32 bits, and
/// changes nothing then.
pub proof fn lemma_bumped_fuel_is_the_sum(
    fuel: &mut BlockFuel,
    delta: u64,
    result: Result<(), TranslationError>,
)
    requires
        call_ensures(BlockFuel::bump_by, (fuel, delta), result),
    ensures
        match result {
            Ok(_) => final(fuel).units == old(fuel).units + delta,
            Err(error) => {
                &&& error.inner is BlockFuelOutOfBounds
                &&& old(fuel).units + delta > 0xffff_ffff
                &&& *final(fuel) == *old(fuel)
            },
        },
{
}

/// An instruction that consumes fuel consumes as much as was asked for.
pub proof fn lemma_consume_fuel_consumes(
    amount: u64,
    result: Result<Instruction, TranslationError>,
)
    requires
        call_ensures(Instruction::consume_fuel, (amount,), result),
    ensures
        match result {
            Ok(instruction) => {
                &&& instruction matches Instruction::ConsumeFuel { fuel }
                &&& fuel.units == amount
            },
            Err(error) => error.inner is BlockFuelOutOfBounds && amount > 0xffff_ffff,
        },
{
}

/// Bumping the fuel of an instruction adds to what it consumes.
pub proof fn lemma_bumped_instruction_consumes_the_sum(
    instruction: &mut Instruction,
    fuel: BlockFuel,
    delta: u64,
    result: Result<(), TranslationError>,
)
    requires
        *old(instruction) == (Instruction::ConsumeFuel { fuel }),
        call_ensures(Instruction::bump_fuel_consumption, (instruction, delta), result),
    ensures
        match result {
            Ok(_) => {
                &&& *final(instruction) matches Instruction::ConsumeFuel { fuel: bumped }
                &&& bumped.units == fuel.units + delta
            },
            Err(error) => {
                &&& error.inner is BlockFuelOutOfBounds
                &&& fuel.units + delta > 0xffff_ffff
                &&& *final(instruction) == *old(instruction)
            },
        },
{
}

/// Instructions that copy have the operands that they are created with.
pub proof fn lemma_copy_instructions_have_their_operands(
    result: Register,
    value: Register,
    imm32: AnyConst32,
    i64imm32: I64Const32,
    f64imm32: F64Const32,
    copies: (Instruction, Instruction, Instruction, Instruction),
)
    requires
        call_ensures(Instruction::copy, (result, value), copies.0),
        call_ensures(Instruction::copy_imm32, (result, imm32), copies.1),
        call_ensures(Instruction::copy_i64imm32, (result, i64imm32), copies.2),
        call_ensures(Instruction::copy_f64imm32, (result, f64imm32), copies.3),
    ensures
        copies.0 == (Instruction::Copy { result, value }),
        copies.1 == (Instruction::CopyImm32 { result, value: imm32 }),
        copies.2 == (Instruction::CopyI64Imm32 { result, value: i64imm32 }),
        copies.3 == (Instruction::CopyF64Imm32 { result, value: f64imm32 }),
{
}

/// Updating the offset of a branch changes its offset and nothing else: it stays
/// the same kind of branch on the same condition.
pub proof fn lemma_updated_branch_is_the_same_branch(
    instruction: &mut Instruction,
    new_offset: BranchOffset,
)
    requires
        call_ensures(Instruction::update_branch_offset, (instruction, new_offset), ()),
    ensures
        match *old(instruction) {
            Instruction::Branch { .. } => *final(instruction) == (Instruction::Branch {
                offset: new_offset,
            }),
            Instruction::BranchEqz { condition, .. } => *final(instruction) == (
            Instruction::BranchEqz { condition, offset: new_offset }),
            Instruction::BranchNez { condition, .. } => *final(instruction) == (
            Instruction::BranchNez { condition, offset: new_offset }),
            _ => true,
        },
{
}

/// All branches can have their offset updated.
pub proof fn lemma_branches_can_be_updated(
    instruction: &mut Instruction,
    condition: Register,
    offset: BranchOffset,
    new_offset: BranchOffset,
)
    requires
        *old(instruction) == (Instruction::Branch { offset }) || *old(instruction) == (
        Instruction::BranchEqz { condition, offset }) || *old(instruction) == (
        Instruction::BranchNez { condition, offset }),
    ensures
        call_requires(Instruction::update_branch_offset, (instruction, new_offset)),
{
}

/// Whether `after` is the register `before` once `from` was replaced by `to`.
pub open spec fn is_replaced(
    before: Register,
    after: Register,
    from: Register,
    to: Register,
) -> bool {
    &&& before == from ==> after == to
    &&& before != from ==> after == before
}

/// Replacing a register replaces it in every place of the instruction, and
/// changes nothing else.
pub proof fn lemma_registers_are_replaced(
    instruction: &mut Instruction,
    from: Register,
    to: Register,
)
    requires
        call_ensures(Instruction::replace_register, (instruction, from, to), ()),
    ensures
        match (*old(instruction), *final(instruction)) {
            (
                Instruction::ConsumeFuel { fuel: a },
                Instruction::ConsumeFuel { fuel: b },
            ) => a == b,
            (Instruction::Branch { offset: a }, Instruction::Branch { offset: b }) => a == b,
            (
                Instruction::BranchEqz { condition: a, offset: x },
                Instruction::BranchEqz { condition: b, offset: y },
            ) => is_replaced(a, b, from, to) && x == y,
            (
                Instruction::BranchNez { condition: a, offset: x },
                Instruction::BranchNez { condition: b, offset: y },
            ) => is_replaced(a, b, from, to) && x == y,
            (
                Instruction::Copy { result: a, value: x },
                Instruction::Copy { result: b, value: y },
            ) => is_replaced(a, b, from, to) && is_replaced(x, y, from, to),
            (
                Instruction::CopyImm32 { result: a, value: x },
                Instruction::CopyImm32 { result: b, value: y },
            ) => is_replaced(a, b, from, to) && x == y,
            (
                Instruction::CopyI64Imm32 { result: a, value: x },
                Instruction::CopyI64Imm32 { result: b, value: y },
            ) => is_replaced(a, b, from, to) && x == y,
            (
                Instruction::CopyF64Imm32 { result: a, value: x },
                Instruction::CopyF64Imm32 { result: b, value: y },
            ) => is_replaced(a, b, from, to) && x == y,
            _ => false,
        },
{
}

/// A register is its index, and is replaced if and only if it is the register to
/// replace.
pub proof fn lemma_register_is_its_index(
    index: i16,
    created: Register,
    again: i16,
    register: &mut Register,
    from: Register,
    to: Register,
)
    requires
        call_ensures(Register::from_i16, (index,), created),
        call_ensures(Register::to_i16, (created,), again),
        call_ensures(Register::replace, (register, from, to), ()),
    ensures
        created.index == index,
        again == index,
        is_replaced(*old(register), *final(register), from, to),
{
}

/// A span starts at its head, and iterating over it starts there and ends `len`
/// registers behind it.
pub proof fn lemma_span_starts_at_its_head(
    head: Register,
    span: RegisterSpan,
    again: Register,
    len: usize,
    iter: RegisterSpanIter,
    count: usize,
    rest: RegisterSpan,
)
    requires
        head.index + len <= 0x7fff,
        call_ensures(RegisterSpan::new, (head,), span),
        call_ensures(RegisterSpan::head, (span,), again),
        call_ensures(RegisterSpan::iter, (span, len), iter),
        call_ensures(RegisterSpanIter::len, (&iter,), count),
        call_ensures(RegisterSpanIter::span, (iter,), rest),
    ensures
        again == head,
        iter.next == head,
        iter.last.index == head.index + len,
        iter.wf(),
        count == len,
        rest.head == head,
{
    assert(iter@.len() == len);
}

/// Iterating gives the registers of a span one after the other, each with the
/// index behind the one before, and ends at the end of the span.
pub proof fn lemma_span_registers_are_consecutive(
    iter: &mut RegisterSpanIter,
    result: Option<Register>,
)
    requires
        old(iter).wf(),
        call_ensures(RegisterSpanIter::next, (iter,), result),
    ensures
        match result {
            Some(register) => {
                &&& old(iter).next.index < old(iter).last.index
                &&& register == old(iter).next
                &&& final(iter).next.index == register.index + 1
                &&& final(iter).last == old(iter).last
                &&& final(iter)@.len() + 1 == old(iter)@.len()
                &&& forall|i: int|
                    0 <= i < final(iter)@.len() ==> (#[trigger] final(iter)@[i]).index
                        == register.index + 1 + i
            },
            None => old(iter).next.index == old(iter).last.index && *final(iter) == *old(iter),
        },
{
    let before = old(iter)@;
    if before.len() > 0 {
        assert(before[0].index == old(iter).next.index);
    }
}

/// The span that providers make up has exactly their registers, in their order.
pub proof fn lemma_span_of_providers(
    providers: &[TypedProvider],
    result: Option<RegisterSpanIter>,
)
    requires
        call_ensures(RegisterSpanIter::from_providers, (providers,), result),
    ensures
        result matches Some(span) ==> {
            &&& providers@.len() > 0
            &&& span.last.index == span.next.index + providers@.len()
            &&& forall|i: int|
                0 <= i < providers@.len() ==> {
                    &&& #[trigger] providers@[i] matches Provider::Register(register)
                    &&& register.index == span.next.index + i
                }
        },
{
}

/// Providers that are registers with consecutive indices make up a span, as long
/// as there is an index for its end.
pub proof fn lemma_consecutive_registers_make_up_a_span(
    providers: &[TypedProvider],
    head: Register,
    result: Option<RegisterSpanIter>,
)
    requires
        providers@.len() > 0,
        head.index + providers@.len() <= 0x7fff,
        forall|i: int|
            0 <= i < providers@.len() ==> {
                &&& #[trigger] providers@[i] matches Provider::Register(register)
                &&& register.index == head.index + i
            },
        call_ensures(RegisterSpanIter::from_providers, (providers,), result),
    ensures
        result matches Some(span) && span.next == head && span.last.index == head.index
            + providers@.len(),
{
    assert(providers@[0] == TypedProvider::Register(head));
    assert forall|i: int| 0 <= i < providers@.len() implies #[trigger] providers@[i]
        == TypedProvider::Register(Register { index: (head.index + i) as i16 }) by {}
}

/// A 32 bit constant has the bits of the number that it is created from.
pub proof fn lemma_const32_has_the_bits(a: i32, b: F32, from_a: AnyConst32, from_b: AnyConst32)
    requires
        call_ensures(<AnyConst32 as From<i32>>::from, (a,), from_a),
        call_ensures(<AnyConst32 as From<F32>>::from, (b,), from_b),
    ensures
        from_a.bits == a + (if a < 0 {
            0x1_0000_0000int
        } else {
            0
        }),
        from_b.bits == b.bits,
{
    assert(a < 0 ==> (a as u32) == a + 0x1_0000_0000) by (bit_vector);
    assert(a >= 0 ==> (a as u32) == a) by (bit_vector);
}

/// A 64 bit integer is a 32 bit constant if and only if 32 bits can hold it, and
/// is then that integer.
pub proof fn lemma_small_integers_are_const32(value: i64, result: Option<I64Const32>)
    requires
        call_ensures(I64Const32::from_i64, (value,), result),
    ensures
        match result {
            Some(constant) => constant.value == value,
            None => value < -0x8000_0000 || value > 0x7fff_ffff,
        },
{
}

} // verus!
