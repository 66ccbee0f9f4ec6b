//! Laws of encoded instructions.
use crate::bytecode::branch::Instr;
use crate::bytecode::immediate::F64Const32;
use crate::bytecode::instruction::Instruction;
use crate::bytecode::provider::{Provider, TypedProvider};
use crate::bytecode::register::{is_contiguous, Register, RegisterSpanIter};
use crate::copies::{
    encode_branch_params, encode_call_params, encode_copies, lemma_encode_copies_extends,
    lemma_encode_copy_extends,
};
use crate::encoder::{InstrEncoder, InstrSequence};
use crate::error::TranslationError;
use crate::execution::{
    added, copied_all, executed_all, holds_consts, lemma_branch_params_are_passed,
    lemma_call_and_branch_params_agree, lemma_call_params_are_passed,
    lemma_ordered_copies_happen_at_once, params_are_passed, provider_wf, value_of,
};
use crate::float::{lemma_widened_narrowed, narrow};
use crate::laws::stack::{are_on_top, holds, is_extended, is_value_of_one};
use crate::ordering::{
    copies_of_params, first_ready, has_cycle, is_ready, keeps_inputs, lemma_cycles_have_no_order,
    lemma_first_ready, lemma_order_is_kept, lemma_order_without_cycle, order_copies, ordered,
    param_copies, redirected, results_of, RegisterCopy,
};
use crate::stack::consts::{consts_valid, register_of_place};
use crate::stack::register_alloc::{DefragRegister, RegisterAllocView};
use crate::stack::ValueStack;
use crate::value::{TypedValue, UntypedValue, ValueType};
use vstd::prelude::*;

verus! {

/// Whether `after` are the instructions `before` with one more behind them, which
/// `instr` refers to.
pub open spec fn is_appended(
    before: Seq<Instruction>,
    after: Seq<Instruction>,
    instruction: Instruction,
    instr: Instr,
) -> bool {
    &&& after.len() == before.len() + 1
    &&& after[before.len() as int] == instruction
    &&& forall|i: int| 0 <= i < before.len() ==> #[trigger] after[i] == before[i]
    &&& instr.index == before.len()
}

/// Pushing an instruction appends exactly that instruction, and the reference that
/// is returned refers to it. It fails only if there is no reference left, and
/// changes nothing then.
pub proof fn lemma_pushed_instruction_is_appended(
    sequence: &mut InstrSequence,
    instruction: Instruction,
    result: Result<Instr, TranslationError>,
)
    requires
        call_ensures(InstrSequence::push, (sequence, instruction), result),
    ensures
        match result {
            Ok(instr) => is_appended(old(sequence)@, final(sequence)@, instruction, instr),
            Err(error) => {
                &&& error.inner is TooManyInstructions
                &&& old(sequence)@.len() > 0xffff_ffff
                &&& final(sequence)@ == old(sequence)@
            },
        },
{
}

/// A sequence hands all of its instructions out, in their order, and has none then.
/// A new one, and one that was reset, has none.
pub proof fn lemma_sequence_hands_out_its_instructions(
    sequence: &mut InstrSequence,
    instrs: Vec<Instruction>,
    created: InstrSequence,
    other: &mut InstrSequence,
)
    requires
        call_ensures(InstrSequence::drain, (sequence,), instrs),
        call_ensures(<InstrSequence as Default>::default, (), created),
        call_ensures(InstrSequence::reset, (other,), ()),
    ensures
        instrs@ == old(sequence)@,
        final(sequence)@.len() == 0,
        created@.len() == 0,
        final(other)@.len() == 0,
{
}

/// The next instruction is the one behind all others.
pub proof fn lemma_next_instruction_is_behind_all_others(sequence: &InstrSequence, next: Instr)
    requires
        sequence@.len() <= 0xffff_ffff,
        call_ensures(InstrSequence::next_instr, (sequence,), next),
    ensures
        next.index == sequence@.len(),
{
}

/// An instruction can be changed behind its reference: it is the one at that index,
/// and all others stay as they are.
pub proof fn lemma_instructions_are_behind_their_reference(
    sequence: &mut InstrSequence,
    instr: Instr,
    instruction: &mut Instruction,
)
    requires
        instr.index < old(sequence)@.len(),
        call_ensures(InstrSequence::get_mut, (sequence, instr), instruction),
    ensures
        *old(instruction) == old(sequence)@[instr.index as int],
        final(sequence)@.len() == old(sequence)@.len(),
        final(sequence)@[instr.index as int] == *final(instruction),
        forall|i: int|
            0 <= i < old(sequence)@.len() && i != instr.index ==> #[trigger] final(sequence)@[i]
                == old(sequence)@[i],
{
}

/// The encoder appends exactly the instruction that is pushed, keeps the labels,
/// and hands all instructions out in their order.
pub proof fn lemma_encoder_appends_instructions(
    encoder: &mut InstrEncoder,
    instruction: Instruction,
    result: Result<Instr, TranslationError>,
    drained: &mut InstrEncoder,
    instrs: Vec<Instruction>,
)
    requires
        call_ensures(InstrEncoder::push_instr, (encoder, instruction), result),
        old(drained)@ == final(encoder)@,
        call_ensures(InstrEncoder::drain_instrs, (drained,), instrs),
    ensures
        final(encoder)@.labels == old(encoder)@.labels,
        match result {
            Ok(instr) => is_appended(old(encoder)@.instrs, instrs@, instruction, instr),
            Err(error) => {
                &&& error.inner is TooManyInstructions
                &&& old(encoder)@.instrs.len() > 0xffff_ffff
                &&& instrs@ == old(encoder)@.instrs
            },
        },
        final(encoder)@.instrs == instrs@,
        final(drained)@.instrs.len() == 0,
        final(drained)@.labels == old(drained)@.labels,
{
}

/// A new encoder has no instructions, no labels and no users of labels, and neither
/// has one that was reset.
pub proof fn lemma_new_encoder_is_empty(created: InstrEncoder, encoder: &mut InstrEncoder)
    requires
        call_ensures(<InstrEncoder as Default>::default, (), created),
        call_ensures(InstrEncoder::reset, (encoder,), ()),
    ensures
        created@.instrs.len() == 0,
        created@.labels.labels.len() == 0,
        created@.labels.users.len() == 0,
        final(encoder)@.instrs.len() == 0,
        final(encoder)@.labels.labels.len() == 0,
        final(encoder)@.labels.users.len() == 0,
{
}

/// An instruction that consumes the fuel of a block is appended with that fuel. It
/// fails only if the fuel needs more than 32 bits or if no reference is left, and
/// changes nothing then.
pub proof fn lemma_fuel_of_a_block_is_consumed(
    encoder: &mut InstrEncoder,
    block_fuel: u64,
    result: Result<Instr, TranslationError>,
)
    requires
        call_ensures(InstrEncoder::push_consume_fuel_instr, (encoder, block_fuel), result),
    ensures
        final(encoder)@.labels == old(encoder)@.labels,
        match result {
            Ok(instr) => {
                &&& final(encoder)@.instrs.len() > 0
                &&& final(encoder)@.instrs.last() matches Instruction::ConsumeFuel { fuel }
                &&& fuel.units == block_fuel
                &&& is_appended(
                    old(encoder)@.instrs,
                    final(encoder)@.instrs,
                    final(encoder)@.instrs.last(),
                    instr,
                )
            },
            Err(error) => {
                &&& final(encoder)@ == old(encoder)@
                &&& if block_fuel > 0xffff_ffff {
                    error.inner is BlockFuelOutOfBounds
                } else {
                    &&& error.inner is TooManyInstructions
                    &&& old(encoder)@.instrs.len() > 0xffff_ffff
                }
            },
        },
{
}

/// Bumping the fuel of an instruction adds to it, and changes no other instruction
/// and no label. It fails only if the sum needs more than 32 bits, and changes
/// nothing then.
pub proof fn lemma_bumped_fuel_is_consumed(
    encoder: &mut InstrEncoder,
    instr: Instr,
    delta: u64,
    result: Result<(), TranslationError>,
)
    requires
        instr.index < old(encoder)@.instrs.len(),
        old(encoder)@.instrs[instr.index as int] is ConsumeFuel,
        call_ensures(InstrEncoder::bump_fuel_consumption, (encoder, instr, delta), result),
    ensures
        ({
            let i = instr.index as int;
            let before = old(encoder)@.instrs[i]->ConsumeFuel_fuel.units;
            &&& final(encoder)@.labels == old(encoder)@.labels
            &&& final(encoder)@.instrs.len() == old(encoder)@.instrs.len()
            &&& forall|k: int|
                0 <= k < old(encoder)@.instrs.len() && k != i
                    ==> #[trigger] final(encoder)@.instrs[k] == old(encoder)@.instrs[k]
            &&& match result {
                Ok(_) => {
                    &&& final(encoder)@.instrs[i] matches Instruction::ConsumeFuel { fuel }
                    &&& fuel.units == before + delta
                },
                Err(error) => {
                    &&& error.inner is BlockFuelOutOfBounds
                    &&& before + delta > 0xffff_ffff
                    &&& final(encoder)@.instrs[i] == old(encoder)@.instrs[i]
                },
            }
        }),
{
}

/// Adjusting a register of an instruction replaces it there, and changes no other
/// instruction and no label.
pub proof fn lemma_adjusted_register_is_replaced(
    encoder: &mut InstrEncoder,
    user: Instr,
    reg: Register,
    new_reg: Register,
    instruction: &mut Instruction,
)
    requires
        user.index < old(encoder)@.instrs.len(),
        call_ensures(
            <InstrEncoder as DefragRegister>::defrag_register,
            (encoder, user, reg, new_reg),
            (),
        ),
        *old(instruction) == old(encoder)@.instrs[user.index as int],
        call_ensures(Instruction::replace_register, (instruction, reg, new_reg), ()),
    ensures
        final(encoder)@.labels == old(encoder)@.labels,
        final(encoder)@.instrs == old(encoder)@.instrs.update(
            user.index as int,
            *final(instruction),
        ),
{
}

/// The signed integer with the given bits.
pub open spec fn signed(bits: u64) -> int {
    if bits < 0x8000_0000_0000_0000 {
        bits as int
    } else {
        bits - 0x1_0000_0000_0000_0000
    }
}

/// Whether a constant value is part of the instruction that copies it, since 32
/// bits can hold it: values of 32 bit types, small integers, and 64 bit floats with
/// a 32 bit encoding, which `found` is.
pub open spec fn is_immediate(value: TypedValue, found: Option<u32>) -> bool {
    match value.ty {
        ValueType::I32 | ValueType::F32 => true,
        ValueType::I64 => -0x8000_0000 <= signed(value.value.bits) < 0x8000_0000,
        ValueType::F64 => found is Some,
        ValueType::FuncRef | ValueType::ExternRef => false,
    }
}

/// Whether the instruction writes the value of the provider into `result` and is
/// the most compact one that does.
pub open spec fn is_copy_of(
    instruction: Instruction,
    result: Register,
    provider: TypedProvider,
    found: Option<u32>,
    consts: Seq<UntypedValue>,
) -> bool {
    match provider {
        Provider::Register(register) => instruction == (Instruction::Copy {
            result,
            value: register,
        }),
        Provider::Const(value) => if !is_immediate(value, found) {
            &&& instruction matches Instruction::Copy { result: written, value: register }
            &&& written == result
            &&& holds(register, provider, consts)
        } else {
            match value.ty {
                ValueType::I64 => {
                    &&& instruction matches Instruction::CopyI64Imm32 {
                        result: written,
                        value: small,
                    }
                    &&& written == result
                    &&& small.value == signed(value.value.bits)
                },
                ValueType::F64 => {
                    &&& instruction matches Instruction::CopyF64Imm32 {
                        result: written,
                        value: small,
                    }
                    &&& written == result
                    &&& Some(small.bits) == found
                },
                _ => {
                    &&& instruction matches Instruction::CopyImm32 {
                        result: written,
                        value: small,
                    }
                    &&& written == result
                    &&& small.bits == value.value.bits as int % 0x1_0000_0000
                },
            }
        },
    }
}

/// Encoding a copy of a register into itself does nothing. Any other copy appends
/// one instruction, the most compact one that writes the value into the result, and
/// returns the reference to it. A function local constant value is allocated only
/// for a value that is not part of the instruction. Labels, providers and registers
/// stay as they are. It fails only if no constant value or no instruction can be
/// added, and appends nothing then.
pub proof fn lemma_encoded_copy_is_compact(
    encoder: &mut InstrEncoder,
    stack: &mut ValueStack,
    result: Register,
    value: TypedProvider,
    found: Option<u32>,
    outcome: Result<Option<Instr>, TranslationError>,
)
    requires
        old(stack).wf(),
        call_ensures(InstrEncoder::encode_copy, (encoder, stack, result, value), outcome),
        value matches Provider::Const(constant) ==> call_ensures(
            narrow,
            (constant.value.bits,),
            found,
        ),
    ensures
        final(encoder)@.labels == old(encoder)@.labels,
        final(stack)@.providers == old(stack)@.providers,
        final(stack)@.registers == old(stack)@.registers,
        match outcome {
            Ok(None) => {
                &&& value == TypedProvider::Register(result)
                &&& final(encoder)@ == old(encoder)@
                &&& final(stack)@ == old(stack)@
            },
            Ok(Some(instr)) => {
                &&& value != TypedProvider::Register(result)
                &&& final(encoder)@.instrs.len() > 0
                &&& is_appended(
                    old(encoder)@.instrs,
                    final(encoder)@.instrs,
                    final(encoder)@.instrs.last(),
                    instr,
                )
                &&& is_copy_of(
                    final(encoder)@.instrs.last(),
                    result,
                    value,
                    found,
                    final(stack)@.consts,
                )
            },
            Err(error) => {
                &&& value != TypedProvider::Register(result)
                &&& final(encoder)@ == old(encoder)@
                &&& if error.inner is TooManyFuncLocalConstValues {
                    &&& value matches Provider::Const(constant)
                    &&& !is_immediate(constant, found)
                    &&& !old(stack)@.consts.contains(constant.value)
                    &&& old(stack)@.consts.len() == 0x7fff
                    &&& final(stack)@ == old(stack)@
                } else {
                    &&& error.inner is TooManyInstructions
                    &&& old(encoder)@.instrs.len() > 0xffff_ffff
                }
            },
        },
        ({
            let is_pooled = value matches Provider::Const(constant) && !is_immediate(
                constant,
                found,
            ) && !old(stack)@.consts.contains(constant.value) && !(outcome matches Err(error)
                && error.inner is TooManyFuncLocalConstValues);
            final(stack)@.consts == (if is_pooled {
                old(stack)@.consts.push(value->Const_0.value)
            } else {
                old(stack)@.consts
            })
        }),
{
    if let Provider::Const(constant) = value {
        let bits = constant.value.bits;
        assert((bits as u32) == bits % 0x1_0000_0000) by (bit_vector);
        assert(bits < 0x8000_0000_0000_0000 ==> (bits as i64) == bits) by (bit_vector);
        assert(bits >= 0x8000_0000_0000_0000 ==> (bits as i64) == bits - 0x1_0000_0000_0000_0000)
            by (bit_vector);
        if !old(stack)@.consts.contains(constant.value) {
            assert(old(stack)@.consts.push(constant.value)[old(stack)@.consts.len() as int]
                == constant.value);
        }
    }
}

/// Whether the parameters already are registers with consecutive indices from
/// `head` on, with an index left for the end of their span.
pub open spec fn are_consecutive(params: Seq<TypedProvider>, head: Register) -> bool {
    &&& params.len() > 0
    &&& head.index + params.len() <= 0x7fff
    &&& forall|i: int|
        0 <= i < params.len() ==> {
            &&& #[trigger] params[i] matches Provider::Register(register)
            &&& register.index == head.index + i
        }
}

/// Parameters in consecutive registers make up a span.
proof fn lemma_consecutive_params_are_contiguous(params: Seq<TypedProvider>, head: Register)
    requires
        are_consecutive(params, head),
    ensures
        is_contiguous(params),
        params[0] == TypedProvider::Register(head),
{
    assert forall|i: int| 0 <= i < params.len() implies #[trigger] params[i]
        == TypedProvider::Register(Register { index: (head.index + i) as i16 }) by {}
    assert(params[0] == TypedProvider::Register(Register { index: (head.index + 0) as i16 }));
}

/// Call parameters that already are in consecutive registers stay there: encoding
/// them always succeeds, gives the span of exactly those registers, and changes
/// nothing.
pub proof fn lemma_consecutive_call_params_stay(
    encoder: &mut InstrEncoder,
    stack: &mut ValueStack,
    params: &[TypedProvider],
    head: Register,
    outcome: Result<RegisterSpanIter, TranslationError>,
)
    requires
        are_consecutive(params@, head),
        call_ensures(InstrEncoder::encode_call_params, (encoder, stack, params), outcome),
    ensures
        outcome matches Ok(span) && span.next == head && span.last.index == head.index
            + params@.len(),
        final(encoder)@ == old(encoder)@,
        final(stack)@ == old(stack)@,
{
    lemma_consecutive_params_are_contiguous(params@, head);
}

/// Branch parameters that already are in consecutive registers stay there: nothing
/// is encoded, and they are pushed back as they are. It fails only if that does.
pub proof fn lemma_consecutive_branch_params_are_pushed_back(
    encoder: &mut InstrEncoder,
    stack: &mut ValueStack,
    pushed: &mut ValueStack,
    params: &[TypedProvider],
    head: Register,
    outcome: Result<RegisterSpanIter, TranslationError>,
    result: Result<(), TranslationError>,
)
    requires
        are_consecutive(params@, head),
        call_ensures(
            InstrEncoder::encode_conditional_branch_params,
            (encoder, stack, params),
            outcome,
        ),
        old(pushed)@ == old(stack)@,
        call_ensures(ValueStack::push_n, (pushed, params), result),
    ensures
        final(encoder)@ == old(encoder)@,
        final(stack)@ == final(pushed)@,
        match (outcome, result) {
            (Ok(span), Ok(_)) => span.next == head && span.last.index == head.index
                + params@.len(),
            (Err(a), Err(b)) => a == b,
            _ => false,
        },
{
    lemma_consecutive_params_are_contiguous(params@, head);
}

/// Whether a copy is not one of a register into itself.
pub open spec fn moves(copy: RegisterCopy) -> bool {
    copy.value != TypedProvider::Register(copy.result)
}

/// The number of copies that are not copies of registers into themselves.
pub open spec fn count_moves(copies: Seq<RegisterCopy>) -> nat {
    copies.filter(|copy: RegisterCopy| moves(copy)).len()
}

/// Encoded copies are one instruction for each copy that is not one of a register
/// into itself. Encoding fails only if no constant value or no instruction can be
/// added.
proof fn lemma_encoded_copies_are_counted(
    instrs: Seq<Instruction>,
    consts: Seq<UntypedValue>,
    copies: Seq<RegisterCopy>,
)
    requires
        consts_valid(consts),
    ensures
        ({
            let encoded = encode_copies(instrs, consts, copies);
            &&& encoded.instrs.len() <= instrs.len() + count_moves(copies)
            &&& encoded.consts.len() <= consts.len() + count_moves(copies)
            &&& encoded.outcome is Ok ==> encoded.instrs.len() == instrs.len() + count_moves(copies)
            &&& encoded.outcome matches Err(error) ==> {
                ||| error.inner is TooManyInstructions && encoded.instrs.len() > 0xffff_ffff
                ||| error.inner is TooManyFuncLocalConstValues && encoded.consts.len() == 0x7fff
            }
        }),
    decreases copies.len(),
{
    reveal(Seq::filter);
    if copies.len() > 0 {
        lemma_encoded_copies_are_counted(instrs, consts, copies.drop_last());
        lemma_encode_copies_extends(instrs, consts, copies.drop_last());
    }
}

/// The register that a copy instruction writes.
pub open spec fn written(instruction: Instruction) -> Option<Register> {
    match instruction {
        Instruction::Copy { result, .. } => Some(result),
        Instruction::CopyImm32 { result, .. } => Some(result),
        Instruction::CopyI64Imm32 { result, .. } => Some(result),
        Instruction::CopyF64Imm32 { result, .. } => Some(result),
        _ => None,
    }
}

/// Whether the copies write registers with indices between the bounds, and read no
/// constant values but those of `params`.
spec fn is_made_of(
    copies: Seq<RegisterCopy>,
    params: Seq<TypedProvider>,
    low: int,
    high: int,
) -> bool {
    forall|k: int|
        0 <= k < copies.len() ==> {
            &&& low <= (#[trigger] copies[k]).result.index <= high
            &&& copies[k].value is Const ==> params.contains(copies[k].value)
        }
}

/// Encoded copies write the results of the copies, and allocate none but their
/// constant values.
proof fn lemma_encoded_copies_are_made_of(
    instrs: Seq<Instruction>,
    consts: Seq<UntypedValue>,
    copies: Seq<RegisterCopy>,
    params: Seq<TypedProvider>,
    low: int,
    high: int,
)
    requires
        consts_valid(consts),
        is_made_of(copies, params, low, high),
    ensures
        ({
            let encoded = encode_copies(instrs, consts, copies);
            &&& is_extended(consts, encoded.consts, params)
            &&& instrs.is_prefix_of(encoded.instrs)
            &&& forall|k: int|
                instrs.len() <= k < encoded.instrs.len() ==> {
                    &&& written(#[trigger] encoded.instrs[k]) matches Some(register)
                    &&& low <= register.index <= high
                }
        }),
    decreases copies.len(),
{
    lemma_encode_copies_extends(instrs, consts, copies);
    if copies.len() > 0 {
        let init = copies.drop_last();
        let last = copies.last();
        let before = encode_copies(instrs, consts, init);
        let encoded = encode_copies(instrs, consts, copies);
        assert(copies[copies.len() - 1] == last);
        assert forall|k: int| 0 <= k < init.len() implies {
            &&& low <= (#[trigger] init[k]).result.index <= high
            &&& init[k].value is Const ==> params.contains(init[k].value)
        } by {
            assert(init[k] == copies[k]);
        }
        lemma_encoded_copies_are_made_of(instrs, consts, init, params, low, high);
        lemma_encode_copies_extends(instrs, consts, init);
        if before.outcome is Ok {
            lemma_encode_copy_extends(before.instrs, before.consts, last.result, last.value);
            assert forall|k: int| consts.len() <= k < encoded.consts.len() implies is_value_of_one(
                #[trigger] encoded.consts[k],
                params,
            ) by {
                if k < before.consts.len() {
                    assert(before.consts[k] == encoded.consts[k]);
                } else {
                    let i = params.index_of(last.value);
                    assert(params[i] == last.value);
                }
            }
            assert forall|k: int| instrs.len() <= k < encoded.instrs.len() implies {
                &&& written(#[trigger] encoded.instrs[k]) matches Some(register)
                &&& low <= register.index <= high
            } by {
                if k < before.instrs.len() {
                    assert(encoded.instrs[k] == before.instrs[k]);
                }
            }
        }
    }
}

/// Ordering copies keeps the bounds of what they write, and what they read.
proof fn lemma_ordered_copies_are_made_of(
    copies: Seq<RegisterCopy>,
    spare: Register,
    params: Seq<TypedProvider>,
    low: int,
    high: int,
)
    requires
        is_made_of(copies, params, low, high),
        low <= spare.index <= high,
    ensures
        is_made_of(ordered(copies, spare), params, low, high),
    decreases copies.len(),
{
    lemma_first_ready(copies, 0);
    let i = first_ready(copies, 0) as int;
    if copies.len() > 0 {
        let rest = if i < copies.len() {
            copies.remove(i)
        } else {
            redirected(copies.remove(0), copies[0].result, spare)
        };
        assert(is_made_of(rest, params, low, high)) by {
            assert forall|k: int| 0 <= k < rest.len() implies {
                &&& low <= (#[trigger] rest[k]).result.index <= high
                &&& rest[k].value is Const ==> params.contains(rest[k].value)
            } by {
                let source = if i < copies.len() && k < i {
                    k
                } else {
                    k + 1
                };
                assert(low <= copies[source].result.index <= high);
            }
        }
        lemma_ordered_copies_are_made_of(rest, spare, params, low, high);
        let tail = ordered(rest, spare);
        let all = ordered(copies, spare);
        assert forall|k: int| 0 <= k < all.len() implies {
            &&& low <= (#[trigger] all[k]).result.index <= high
            &&& all[k].value is Const ==> params.contains(all[k].value)
        } by {
            let offset = all.len() - tail.len();
            if k >= offset {
                assert(all[k] == tail[k - offset]);
            } else if i < copies.len() {
                assert(all[k] == copies[i]);
            } else {
                assert(low <= copies[0].result.index <= high);
            }
        }
    }
}

/// The copies of parameters, in their order.
proof fn lemma_param_copies_are_made_of(head: int, params: Seq<TypedProvider>)
    requires
        0 <= head,
        head + params.len() <= 0x7fff,
    ensures
        is_made_of(
            ordered(param_copies(head, params), Register::at(head + params.len())),
            params,
            head,
            (head + params.len()) as int,
        ),
{
    let copies = param_copies(head, params);
    assert(is_made_of(copies, params, head, (head + params.len()) as int)) by {
        assert forall|k: int| 0 <= k < copies.len() implies {
            &&& head <= (#[trigger] copies[k]).result.index <= head + params.len()
            &&& copies[k].value is Const ==> params.contains(copies[k].value)
        } by {
            assert(params[k] == copies[k].value);
        }
    }
    lemma_ordered_copies_are_made_of(
        copies,
        Register::at(head + params.len()),
        params,
        head,
        (head + params.len()) as int,
    );
}

/// Removing a copy counts one less if it moves.
proof fn lemma_removed_copy_is_counted(copies: Seq<RegisterCopy>, i: int)
    requires
        0 <= i < copies.len(),
    ensures
        count_moves(copies) == count_moves(copies.remove(i)) + (if moves(copies[i]) {
            1nat
        } else {
            0nat
        }),
{
    let before = copies.subrange(0, i);
    let behind = copies.subrange(i + 1, copies.len() as int);
    assert(copies =~= before + seq![copies[i]] + behind);
    lemma_moves_add(before + seq![copies[i]], behind);
    lemma_moves_add(before, seq![copies[i]]);
    lemma_moves_add(before, behind);
    lemma_single_move(copies[i]);
}

/// The copies of one list behind another are counted together.
proof fn lemma_moves_add(a: Seq<RegisterCopy>, b: Seq<RegisterCopy>)
    ensures
        count_moves(a + b) == count_moves(a) + count_moves(b),
{
    Seq::filter_distributes_over_add(a, b, |copy: RegisterCopy| moves(copy));
}

/// Redirecting reads to a register that is not written keeps the number of moves.
proof fn lemma_redirected_moves(copies: Seq<RegisterCopy>, from: Register, to: Register)
    requires
        !results_of(copies).contains(from),
        !results_of(copies).contains(to),
    ensures
        count_moves(redirected(copies, from, to)) == count_moves(copies),
    decreases copies.len(),
{
    reveal(Seq::filter);
    if copies.len() > 0 {
        let init = copies.drop_last();
        let last = copies.last();
        assert(redirected(copies, from, to).drop_last() =~= redirected(init, from, to));
        assert forall|register: Register| results_of(init).contains(register) implies results_of(
            copies,
        ).contains(register) by {
            let k = results_of(init).index_of(register);
            assert(results_of(copies)[k] == register);
        }
        lemma_redirected_moves(init, from, to);
        assert(results_of(copies)[copies.len() - 1] == last.result);
        assert(redirected(copies, from, to).last() == last.redirected(from, to));
    }
}

/// Ordering copies adds nothing but what saves a register for a cycle, and each
/// cycle takes at least two copies.
proof fn lemma_ordered_moves_are_counted(copies: Seq<RegisterCopy>, spare: Register)
    requires
        results_of(copies).no_duplicates(),
        !results_of(copies).contains(spare),
    ensures
        count_moves(copies) <= count_moves(ordered(copies, spare)) <= 2 * count_moves(copies),
        !has_cycle(copies) ==> count_moves(ordered(copies, spare)) == count_moves(copies),
    decreases copies.len(),
{
    lemma_first_ready(copies, 0);
    let i = first_ready(copies, 0) as int;
    let results = results_of(copies);
    if copies.len() == 0 {
    } else if i < copies.len() {
        let rest = copies.remove(i);
        assert(results_of(rest) =~= results.remove(i));
        lemma_results_without(results, i);
        lemma_ordered_moves_are_counted(rest, spare);
        lemma_removed_copy_is_counted(copies, i);
        lemma_moves_add(seq![copies[i]], ordered(rest, spare));
        lemma_single_move(copies[i]);
    } else {
        let first = copies[0];
        let saved = RegisterCopy { result: spare, value: TypedProvider::Register(first.result) };
        let removed = copies.remove(0);
        let rest = redirected(removed, first.result, spare);
        assert(results_of(removed) =~= results.remove(0));
        assert(results_of(rest) =~= results.remove(0));
        lemma_results_without(results, 0);
        assert(results[0] == first.result);
        lemma_redirected_moves(removed, first.result, spare);
        lemma_ordered_moves_are_counted(rest, spare);
        lemma_removed_copy_is_counted(copies, 0);
        assert(!is_ready(copies, 0));
        assert(moves(first));
        assert(moves(saved));
        assert(seq![saved, first] =~= seq![saved] + seq![first]);
        lemma_moves_add(seq![saved], seq![first]);
        lemma_single_move(saved);
        lemma_single_move(first);
        lemma_moves_add(seq![saved, first], ordered(rest, spare));
    }
}

/// The only copy of a list.
proof fn lemma_single_move(copy: RegisterCopy)
    ensures
        count_moves(seq![copy]) == (if moves(copy) {
            1nat
        } else {
            0nat
        }),
{
    reveal(Seq::filter);
    assert(seq![copy].drop_last() =~= Seq::<RegisterCopy>::empty());
    assert(seq![copy].drop_last().filter(|copy: RegisterCopy| moves(copy)).len() == 0);
}

/// What is left of different registers without one of them.
proof fn lemma_results_without(results: Seq<Register>, i: int)
    requires
        results.no_duplicates(),
        0 <= i < results.len(),
    ensures
        results.remove(i).no_duplicates(),
        !results.remove(i).contains(results[i]),
        forall|register: Register| #[trigger]
            results.remove(i).contains(register) ==> results.contains(register),
{
    let rest = results.remove(i);
    assert forall|register: Register| #[trigger] rest.contains(register) implies results.contains(
        register,
    ) by {
        let k = rest.index_of(register);
        assert(results[if k < i {
            k
        } else {
            k + 1
        }] == register);
    }
}

/// Whether the copies of the parameters into the registers from `head` on can be
/// made in the order `order`: it is an order of those copies, and none of them
/// overwrites a register that a later one reads.
pub open spec fn is_order_of_params(
    order: Seq<RegisterCopy>,
    params: Seq<TypedProvider>,
    head: int,
) -> bool {
    let copies = Seq::new(
        params.len(),
        |i: int| RegisterCopy { result: Register { index: (head + i) as i16 }, value: params[i] },
    );
    &&& order.to_multiset() == copies.to_multiset()
    &&& forall|i: int, j: int|
        0 <= i < j < order.len() && (#[trigger] order[j]).value == TypedProvider::Register(
            (#[trigger] order[i]).result,
        ) ==> order[i].value == TypedProvider::Register(order[i].result)
}

/// The number of parameters that are not in the register where they have to be.
pub open spec fn count_moved_params(params: Seq<TypedProvider>, head: int) -> nat {
    Seq::new(
        params.len(),
        |i: int| RegisterCopy { result: Register { index: (head + i) as i16 }, value: params[i] },
    ).filter(|copy: RegisterCopy| moves(copy)).len()
}

/// The copies of parameters that can be made in some order.
proof fn lemma_order_of_params(
    order: Seq<RegisterCopy>,
    params: Seq<TypedProvider>,
    head: int,
)
    requires
        0 <= head,
        head + params.len() <= 0x7fff,
    ensures
        count_moved_params(params, head) == count_moves(param_copies(head, params)),
        is_order_of_params(order, params, head) ==> !has_cycle(param_copies(head, params)),
{
    let copies = Seq::new(
        params.len(),
        |i: int| RegisterCopy { result: Register { index: (head + i) as i16 }, value: params[i] },
    );
    assert(copies =~= param_copies(head, params));
    if is_order_of_params(order, params, head) {
        assert(keeps_inputs(order)) by {
            assert forall|i: int, j: int|
                0 <= i < j < order.len() && (#[trigger] order[j]).reads(
                    (#[trigger] order[i]).result,
                ) implies order[i].is_noop() by {}
        }
        lemma_cycles_have_no_order(copies, order);
    }
}

/// The copies of parameters write different registers, none of which is the one
/// behind them.
proof fn lemma_param_copies_are_different(head: int, params: Seq<TypedProvider>)
    requires
        0 <= head,
        head + params.len() <= 0x7fff,
    ensures
        results_of(param_copies(head, params)).no_duplicates(),
        !results_of(param_copies(head, params)).contains(Register::at(head + params.len())),
{
    let results = results_of(param_copies(head, params));
    assert forall|i: int| 0 <= i < results.len() implies (#[trigger] results[i]).index == head
        + i by {}
}

/// Call parameters that are not in consecutive registers are copied to the next
/// dynamic registers, whose span is returned. The stack keeps its providers and the
/// registers in use, and gets no new constant values but those of parameters.
/// Instructions that write registers of the span, or the one behind it, are
/// appended: one for each parameter that is not
/// where it has to be if there is an order in which no copy overwrites what a later
/// one reads, and at most twice as many else. It fails only if registers, constant
/// values or instructions are exhausted.
pub proof fn lemma_copied_call_params_follow_the_registers_in_use(
    encoder: &mut InstrEncoder,
    stack: &mut ValueStack,
    params: &[TypedProvider],
    order: Seq<RegisterCopy>,
    outcome: Result<RegisterSpanIter, TranslationError>,
)
    requires
        old(stack).wf(),
        forall|head: Register| !#[trigger] are_consecutive(params@, head),
        call_ensures(InstrEncoder::encode_call_params, (encoder, stack, params), outcome),
    ensures
        ({
            let head = old(stack)@.registers.next_dynamic;
            let n = params@.len();
            let moved = count_moved_params(params@, head);
            let added = final(encoder)@.instrs.len() - old(encoder)@.instrs.len();
            let ordered = is_order_of_params(order, params@, head);
            let max = old(stack)@.registers.max_dynamic;
            &&& final(encoder)@.labels == old(encoder)@.labels
            &&& old(encoder)@.instrs.is_prefix_of(final(encoder)@.instrs)
            &&& final(stack)@.providers == old(stack)@.providers
            &&& is_extended(old(stack)@.consts, final(stack)@.consts, params@)
            &&& forall|k: int|
                old(encoder)@.instrs.len() <= k < final(encoder)@.instrs.len() ==> {
                    &&& written(#[trigger] final(encoder)@.instrs[k]) matches Some(register)
                    &&& head <= register.index <= head + n
                }
            &&& final(stack)@.registers == (RegisterAllocView {
                max_dynamic: final(stack)@.registers.max_dynamic,
                ..old(stack)@.registers
            })
            &&& max <= final(stack)@.registers.max_dynamic
            &&& max < head + n + 1 || final(stack)@.registers.max_dynamic == max
            &&& final(stack)@.registers.max_dynamic <= head + n + 1
                || final(stack)@.registers.max_dynamic == max
            &&& match outcome {
                Ok(span) => {
                    &&& span.next.index == head
                    &&& span.last.index == head + n
                    &&& head + n <= final(stack)@.registers.max_dynamic
                    &&& moved <= added <= 2 * moved
                    &&& ordered ==> added == moved
                    &&& ordered ==> final(stack)@.registers.max_dynamic == (if max < head + n {
                        head + n
                    } else {
                        max
                    })
                },
                Err(error) => {
                    ||| {
                        &&& error.inner is AllocatedTooManyRegisters
                        &&& added == 0
                        &&& head + n + 1 > 0x7fff
                        &&& ordered ==> head + n > 0x7fff
                    }
                    ||| {
                        &&& error.inner is TooManyFuncLocalConstValues
                        &&& final(stack)@.consts.len() == 0x7fff
                    }
                    ||| {
                        &&& error.inner is TooManyInstructions
                        &&& final(encoder)@.instrs.len() > 0xffff_ffff
                    }
                },
            }
        }),
{
    lemma_not_consecutive(params@);
    let head = old(stack)@.registers.next_dynamic;
    if old(stack)@.registers.can_push_dynamic(params@.len() as int) {
        let copies = param_copies(head, params@);
        let spare = Register::at(head + params@.len());
        lemma_order_of_params(order, params@, head);
        lemma_param_copies_are_different(head, params@);
        lemma_ordered_moves_are_counted(copies, spare);
        lemma_encoded_copies_are_counted(
            old(encoder)@.instrs,
            old(stack)@.consts,
            ordered(copies, spare),
        );
        lemma_param_copies_are_made_of(head, params@);
        lemma_encoded_copies_are_made_of(
            old(encoder)@.instrs,
            old(stack)@.consts,
            ordered(copies, spare),
            params@,
            head,
            (head + params@.len()) as int,
        );
    }
}

/// Whether parameters can be copied to the registers from `head` on in their order:
/// no later one is in a register that an earlier one is copied to, unless that one
/// is there already.
pub open spec fn can_be_copied_in_order(params: Seq<TypedProvider>, head: int) -> bool {
    forall|i: int, j: int|
        0 <= i < j < params.len() && is_in_register(#[trigger] params[j], head + i)
            ==> is_in_register(#[trigger] params[i], head + i)
}

/// Whether the provider is the register with the given index.
pub open spec fn is_in_register(provider: TypedProvider, index: int) -> bool {
    provider matches Provider::Register(register) && register.index == index
}

/// Parameters that can be copied in their order are.
proof fn lemma_params_keep_their_order(params: Seq<TypedProvider>, head: int)
    requires
        0 <= head,
        head + params.len() <= 0x7fff,
        can_be_copied_in_order(params, head),
    ensures
        ordered(param_copies(head, params), Register::at(head + params.len())) == param_copies(
            head,
            params,
        ),
        !has_cycle(param_copies(head, params)),
{
    let copies = param_copies(head, params);
    assert(keeps_inputs(copies)) by {
        assert forall|i: int, j: int|
            0 <= i < j < copies.len() && (#[trigger] copies[j]).reads(
                (#[trigger] copies[i]).result,
            ) implies copies[i].is_noop() by {
            assert(is_in_register(params[j], head + i));
            assert(is_in_register(params[i], head + i));
        }
    }
    lemma_order_is_kept(copies, Register::at(head + params.len()));
}

/// Whether the instructions from `start` on write ascending registers.
pub open spec fn write_ascending(instrs: Seq<Instruction>, start: int) -> bool {
    forall|i: int, j: int|
        start <= i < j < instrs.len() ==> match (
            written(#[trigger] instrs[i]),
            written(#[trigger] instrs[j]),
        ) {
            (Some(a), Some(b)) => a.index < b.index,
            _ => false,
        }
}

/// Copies into ascending registers are encoded as instructions that write ascending
/// registers.
proof fn lemma_ascending_copies_write_ascending(
    instrs: Seq<Instruction>,
    consts: Seq<UntypedValue>,
    copies: Seq<RegisterCopy>,
)
    requires
        consts_valid(consts),
        forall|i: int, j: int|
            0 <= i < j < copies.len() ==> (#[trigger] copies[i]).result.index < (
            #[trigger] copies[j]).result.index,
    ensures
        ({
            let encoded = encode_copies(instrs, consts, copies);
            &&& instrs.is_prefix_of(encoded.instrs)
            &&& write_ascending(encoded.instrs, instrs.len() as int)
            &&& forall|k: int|
                instrs.len() <= k < encoded.instrs.len() ==> {
                    &&& copies.len() > 0
                    &&& written(#[trigger] encoded.instrs[k]) matches Some(register)
                    &&& register.index <= copies.last().result.index
                }
        }),
    decreases copies.len(),
{
    lemma_encode_copies_extends(instrs, consts, copies);
    if copies.len() > 0 {
        let init = copies.drop_last();
        let last = copies.last();
        let before = encode_copies(instrs, consts, init);
        let encoded = encode_copies(instrs, consts, copies);
        assert forall|i: int, j: int| 0 <= i < j < init.len() implies (
        #[trigger] init[i]).result.index < (#[trigger] init[j]).result.index by {
            assert(init[i] == copies[i] && init[j] == copies[j]);
        }
        lemma_ascending_copies_write_ascending(instrs, consts, init);
        lemma_encode_copies_extends(instrs, consts, init);
        if init.len() > 0 {
            assert(init.last() == copies[copies.len() - 2]);
            assert(last == copies[copies.len() - 1]);
        }
        if before.outcome is Ok {
            lemma_encode_copy_extends(before.instrs, before.consts, last.result, last.value);
            assert forall|k: int| instrs.len() <= k < before.instrs.len() implies (
            #[trigger] encoded.instrs[k]) == before.instrs[k] by {}
        }
    }
}

/// Call parameters that can be copied in their order are copied in their order: the
/// instructions that are appended write ascending registers.
pub proof fn lemma_call_params_are_copied_in_their_order(
    encoder: &mut InstrEncoder,
    stack: &mut ValueStack,
    params: &[TypedProvider],
    outcome: Result<RegisterSpanIter, TranslationError>,
)
    requires
        old(stack).wf(),
        can_be_copied_in_order(params@, old(stack)@.registers.next_dynamic),
        call_ensures(InstrEncoder::encode_call_params, (encoder, stack, params), outcome),
    ensures
        write_ascending(final(encoder)@.instrs, old(encoder)@.instrs.len() as int),
{
    let head = old(stack)@.registers.next_dynamic;
    if !is_contiguous(params@) && old(stack)@.registers.can_push_dynamic(params@.len() as int) {
        lemma_params_keep_their_order(params@, head);
        lemma_ascending_copies_write_ascending(
            old(encoder)@.instrs,
            old(stack)@.consts,
            param_copies(head, params@),
        );
    }
}

/// Call parameters that can be copied in their order are encoded one after the
/// other: encoding one more of them is encoding the others and then a copy of it
/// into the register behind theirs.
pub proof fn lemma_call_params_are_copied_one_after_the_other(
    init: &mut InstrEncoder,
    last: &mut InstrEncoder,
    all: &mut InstrEncoder,
    init_stack: &mut ValueStack,
    last_stack: &mut ValueStack,
    all_stack: &mut ValueStack,
    init_params: &[TypedProvider],
    param: TypedProvider,
    all_params: &[TypedProvider],
    span: RegisterSpanIter,
    copied: Result<Option<Instr>, TranslationError>,
    outcome: Result<RegisterSpanIter, TranslationError>,
)
    requires
        old(all_stack).wf(),
        all_params@ == init_params@.push(param),
        can_be_copied_in_order(all_params@, old(all_stack)@.registers.next_dynamic),
        forall|head: Register| !#[trigger] are_consecutive(all_params@, head),
        forall|head: Register| !#[trigger] are_consecutive(init_params@, head),
        old(all_stack)@.registers.next_dynamic + all_params@.len() <= 0x7fff,
        old(init)@ == old(all)@,
        old(init_stack)@ == old(all_stack)@,
        call_ensures(InstrEncoder::encode_call_params, (all, all_stack, all_params), outcome),
        call_ensures(
            InstrEncoder::encode_call_params,
            (init, init_stack, init_params),
            Ok::<RegisterSpanIter, TranslationError>(span),
        ),
        old(last)@ == final(init)@,
        old(last_stack)@ == final(init_stack)@,
        call_ensures(
            InstrEncoder::encode_copy,
            (last, last_stack, span.last, param),
            copied,
        ),
    ensures
        final(all)@ == final(last)@,
        final(all_stack)@.consts == final(last_stack)@.consts,
        match (copied, outcome) {
            (Ok(_), Ok(all_span)) => all_span.next == span.next && all_span.last.index
                == span.last.index + 1,
            (Err(a), Err(b)) => a == b,
            _ => false,
        },
{
    let head = old(all_stack)@.registers.next_dynamic;
    lemma_not_consecutive(all_params@);
    lemma_not_consecutive(init_params@);
    assert(can_be_copied_in_order(init_params@, head)) by {
        assert forall|i: int, j: int|
            0 <= i < j < init_params@.len() && is_in_register(
                #[trigger] init_params@[j],
                head + i,
            ) implies is_in_register(#[trigger] init_params@[i], head + i) by {
            assert(all_params@[j] == init_params@[j] && all_params@[i] == init_params@[i]);
        }
    }
    lemma_params_keep_their_order(all_params@, head);
    lemma_params_keep_their_order(init_params@, head);
    assert(param_copies(head, all_params@).drop_last() =~= param_copies(head, init_params@));
    let copy = param_copies(head, all_params@).last();
    assert(copy.value == param);
    assert(copy.result == span.last);
}

/// Parameters that are contiguous are in consecutive registers.
proof fn lemma_not_consecutive(params: Seq<TypedProvider>)
    requires
        forall|head: Register| !#[trigger] are_consecutive(params, head),
    ensures
        !is_contiguous(params),
{
    if is_contiguous(params) {
        let head = params[0]->Register_0;
        assert(are_consecutive(params, head));
    }
}

/// Encoding call parameters succeeds where there is room: for their registers and
/// one more, and for twice as many constant values and instructions as there are
/// parameters.
pub proof fn lemma_call_params_are_encoded_where_there_is_room(
    encoder: &mut InstrEncoder,
    stack: &mut ValueStack,
    params: &[TypedProvider],
    outcome: Result<RegisterSpanIter, TranslationError>,
)
    requires
        old(stack).wf(),
        old(stack)@.registers.next_dynamic + params@.len() + 1 <= 0x7fff,
        old(stack)@.consts.len() + 2 * params@.len() < 0x7fff,
        old(encoder)@.instrs.len() + 2 * params@.len() <= 0xffff_ffff,
        call_ensures(InstrEncoder::encode_call_params, (encoder, stack, params), outcome),
    ensures
        outcome is Ok,
{
    let head = old(stack)@.registers.next_dynamic;
    let copies = param_copies(head, params@);
    let spare = Register::at(head + params@.len());
    lemma_param_copies_are_different(head, params@);
    lemma_ordered_moves_are_counted(copies, spare);
    lemma_moves_are_copies(copies);
    lemma_encoded_copies_are_counted(
        old(encoder)@.instrs,
        old(stack)@.consts,
        ordered(copies, spare),
    );
}

/// There are no more moves than copies.
proof fn lemma_moves_are_copies(copies: Seq<RegisterCopy>)
    ensures
        count_moves(copies) <= copies.len(),
    decreases copies.len(),
{
    reveal(Seq::filter);
    if copies.len() > 0 {
        lemma_moves_are_copies(copies.drop_last());
    }
}

/// Branch parameters that are not in consecutive registers are encoded as call
/// parameters are: with the same instructions, constant values and outcome. If that
/// succeeds, the registers of the span are on top of the providers that were there,
/// in use as dynamic registers.
pub proof fn lemma_copied_branch_params_are_on_top(
    call: &mut InstrEncoder,
    branch: &mut InstrEncoder,
    call_stack: &mut ValueStack,
    branch_stack: &mut ValueStack,
    params: &[TypedProvider],
    call_outcome: Result<RegisterSpanIter, TranslationError>,
    branch_outcome: Result<RegisterSpanIter, TranslationError>,
)
    requires
        old(call)@ == old(branch)@,
        old(call_stack)@ == old(branch_stack)@,
        old(call_stack).wf(),
        forall|head: Register| !#[trigger] are_consecutive(params@, head),
        call_ensures(InstrEncoder::encode_call_params, (call, call_stack, params), call_outcome),
        call_ensures(
            InstrEncoder::encode_conditional_branch_params,
            (branch, branch_stack, params),
            branch_outcome,
        ),
    ensures
        final(call)@ == final(branch)@,
        final(call_stack)@.consts == final(branch_stack)@.consts,
        call_outcome == branch_outcome,
        branch_outcome matches Ok(span) ==> {
            let height = old(branch_stack)@.providers.len();
            let n = params@.len();
            &&& final(branch_stack)@.providers.len() == height + n
            &&& final(branch_stack)@.providers.take(height as int) == old(branch_stack)@.providers
            &&& are_on_top(
                final(branch_stack)@,
                Seq::new(
                    n,
                    |i: int|
                        TypedProvider::Register(Register { index: (span.next.index + i) as i16 }),
                ),
                n as int,
            )
            &&& final(branch_stack)@.registers == (RegisterAllocView {
                next_dynamic: old(branch_stack)@.registers.next_dynamic + n,
                ..final(call_stack)@.registers
            })
        },
        if old(branch_stack)@.registers.next_dynamic + params@.len() > 0x7fff {
            final(branch_stack)@ == old(branch_stack)@
        } else {
            final(branch_stack)@.providers.len() == old(branch_stack)@.providers.len()
                + params@.len()
        },
{
    lemma_not_consecutive(params@);
    lemma_call_and_branch_params_agree(
        old(call)@.instrs,
        old(call_stack)@,
        params@,
    );
}

/// The value of a provider in a frame of registers.
pub open spec fn read(provider: TypedProvider, frame: Map<Register, u64>) -> u64 {
    match provider {
        Provider::Register(register) => frame[register],
        Provider::Const(value) => value.value.bits,
    }
}

/// Whether the bits of a constant value fit its type.
pub open spec fn fits_its_type(provider: TypedProvider) -> bool {
    match provider {
        Provider::Const(value) => value.ty is I32 || value.ty is F32 ==> value.value.bits
            <= 0xffff_ffff,
        Provider::Register(_) => true,
    }
}

/// Whether the frame is one that the function can be entered with: the constant
/// values are in the registers with negative indices, the first one in that with
/// index `-1`.
pub open spec fn is_entered(frame: Map<Register, u64>, consts: Seq<UntypedValue>) -> bool {
    forall|k: int|
        0 <= k < consts.len() ==> frame[Register { index: (-1 - k) as i16 }] == (
        #[trigger] consts[k]).bits
}

/// A frame that a function can be entered with holds its constant values.
proof fn lemma_entered_frame_holds_consts(frame: Map<Register, u64>, consts: Seq<UntypedValue>)
    requires
        is_entered(frame, consts),
    ensures
        holds_consts(frame, consts),
{
    assert forall|i: int| 0 <= i < consts.len() implies #[trigger] frame[register_of_place(i)]
        == consts[i].bits by {
        assert(register_of_place(i) == (Register { index: (-1 - i) as i16 }));
    }
}

/// Instructions are executed one after the other: each of them sees what those
/// before it have written, writes one register, and leaves all others as they are.
pub proof fn lemma_copies_are_executed_in_their_order(
    first: Seq<Instruction>,
    instruction: Instruction,
    frame: Map<Register, u64>,
    other: Register,
)
    ensures
        ({
            let before = executed_all(first, frame);
            let after = executed_all(first.push(instruction), frame);
            match instruction {
                Instruction::Copy { result, value } => {
                    &&& after[result] == before[value]
                    &&& other != result ==> after[other] == before[other]
                },
                Instruction::CopyImm32 { result, value } => {
                    &&& after[result] == value.bits
                    &&& other != result ==> after[other] == before[other]
                },
                Instruction::CopyI64Imm32 { result, value } => {
                    &&& signed(after[result]) == value.value
                    &&& other != result ==> after[other] == before[other]
                },
                Instruction::CopyF64Imm32 { result, .. } => {
                    other != result ==> after[other] == before[other]
                },
                _ => after == before,
            }
        }),
        executed_all(Seq::empty(), frame) == frame,
{
    assert(first.push(instruction).drop_last() =~= first);
    if let Instruction::CopyI64Imm32 { value, .. } = instruction {
        let small = value.value;
        assert(small >= 0 ==> (small as i64 as u64) == small) by (bit_vector);
        assert(small < 0 ==> (small as i64 as u64) == small + 0x1_0000_0000_0000_0000)
            by (bit_vector);
    }
}

/// A 64 bit float that is part of an instruction is written as it is.
pub proof fn lemma_narrowed_float_is_written(
    wide: u64,
    small: F64Const32,
    result: Register,
    first: Seq<Instruction>,
    frame: Map<Register, u64>,
)
    requires
        call_ensures(narrow, (wide,), Some(small.bits)),
    ensures
        executed_all(
            first.push(Instruction::CopyF64Imm32 { result, value: small }),
            frame,
        )[result] == wide,
{
    assert(first.push(Instruction::CopyF64Imm32 { result, value: small }).drop_last() =~= first);
    lemma_widened_narrowed(wide);
}

/// Call parameters arrive: executing the instructions that were appended writes the
/// value that each parameter had before into its register of the span. Other
/// registers keep their values, but for the one behind the span.
pub proof fn lemma_call_params_arrive(
    encoder: &mut InstrEncoder,
    stack: &mut ValueStack,
    params: &[TypedProvider],
    span: RegisterSpanIter,
    frame: Map<Register, u64>,
)
    requires
        old(stack).wf(),
        forall|i: int| 0 <= i < params@.len() ==> fits_its_type(#[trigger] params@[i]),
        call_ensures(
            InstrEncoder::encode_call_params,
            (encoder, stack, params),
            Ok::<RegisterSpanIter, TranslationError>(span),
        ),
        is_entered(frame, final(stack)@.consts),
    ensures
        ({
            let added = final(encoder)@.instrs.skip(old(encoder)@.instrs.len() as int);
            let after = executed_all(added, frame);
            &&& span.last.index - span.next.index == params@.len()
            &&& forall|i: int|
                0 <= i < params@.len() ==> after[Register { index: (span.next.index + i) as i16 }]
                    == read(#[trigger] params@[i], frame)
            &&& forall|other: Register|
                !(span.next.index <= other.index <= span.last.index) ==> #[trigger] after[other]
                    == frame[other]
        }),
{
    lemma_entered_frame_holds_consts(frame, final(stack)@.consts);
    assert forall|i: int| 0 <= i < params@.len() implies provider_wf(#[trigger] params@[i]) by {
        assert(fits_its_type(params@[i]));
    }
    lemma_call_params_are_passed(old(encoder)@.instrs, old(stack)@, params@, frame);
    let encoded = encode_call_params(old(encoder)@.instrs, old(stack)@, params@);
    assert(final(encoder)@.instrs == encoded.instrs);
    assert(params_are_passed(old(encoder)@.instrs, params@, encoded, frame));
    let added = added(old(encoder)@.instrs, encoded.instrs);
    let after = executed_all(added, frame);
    assert forall|other: Register|
        !span@.contains(other) && other != span.last implies #[trigger] after[other]
        == frame[other] by {}
    lemma_span_is_indexed(span, params@, frame, after);
}

/// Branch parameters arrive as call parameters do.
pub proof fn lemma_branch_params_arrive(
    encoder: &mut InstrEncoder,
    stack: &mut ValueStack,
    params: &[TypedProvider],
    span: RegisterSpanIter,
    frame: Map<Register, u64>,
)
    requires
        old(stack).wf(),
        forall|i: int| 0 <= i < params@.len() ==> fits_its_type(#[trigger] params@[i]),
        call_ensures(
            InstrEncoder::encode_conditional_branch_params,
            (encoder, stack, params),
            Ok::<RegisterSpanIter, TranslationError>(span),
        ),
        is_entered(frame, final(stack)@.consts),
    ensures
        ({
            let added = final(encoder)@.instrs.skip(old(encoder)@.instrs.len() as int);
            let after = executed_all(added, frame);
            &&& span.last.index - span.next.index == params@.len()
            &&& forall|i: int|
                0 <= i < params@.len() ==> after[Register { index: (span.next.index + i) as i16 }]
                    == read(#[trigger] params@[i], frame)
            &&& forall|other: Register|
                !(span.next.index <= other.index <= span.last.index) ==> #[trigger] after[other]
                    == frame[other]
        }),
{
    lemma_entered_frame_holds_consts(frame, final(stack)@.consts);
    assert forall|i: int| 0 <= i < params@.len() implies provider_wf(#[trigger] params@[i]) by {
        assert(fits_its_type(params@[i]));
    }
    lemma_branch_params_are_passed(old(encoder)@.instrs, old(stack)@, params@, frame);
    let encoded = encode_branch_params(old(encoder)@.instrs, old(stack)@, params@);
    assert(final(encoder)@.instrs == encoded.instrs);
    assert(params_are_passed(old(encoder)@.instrs, params@, encoded, frame));
    let added = added(old(encoder)@.instrs, encoded.instrs);
    let after = executed_all(added, frame);
    assert forall|other: Register|
        !span@.contains(other) && other != span.last implies #[trigger] after[other]
        == frame[other] by {}
    lemma_span_is_indexed(span, params@, frame, after);
}

/// The registers of a span are those between its bounds.
proof fn lemma_span_is_indexed(
    span: RegisterSpanIter,
    params: Seq<TypedProvider>,
    frame: Map<Register, u64>,
    after: Map<Register, u64>,
)
    requires
        span.wf(),
        span@.len() == params.len(),
        forall|i: int|
            0 <= i < params.len() ==> after[#[trigger] span@[i]] == value_of(params[i], frame),
        forall|other: Register|
            !span@.contains(other) && other != span.last ==> #[trigger] after[other]
                == frame[other],
    ensures
        forall|i: int|
            0 <= i < params.len() ==> after[Register { index: (span.next.index + i) as i16 }]
                == read(#[trigger] params[i], frame),
        forall|other: Register|
            !(span.next.index <= other.index <= span.last.index) ==> #[trigger] after[other]
                == frame[other],
{
    assert forall|i: int| 0 <= i < params.len() implies after[Register {
        index: (span.next.index + i) as i16,
    }] == read(#[trigger] params[i], frame) by {
        assert(span@[i] == (Register { index: (span.next.index + i) as i16 }));
    }
    assert forall|other: Register|
        !(span.next.index <= other.index <= span.last.index) implies #[trigger] after[other]
        == frame[other] by {
        if span@.contains(other) {
            let k = span@.index_of(other);
            assert(span@[k].index == span.next.index + k);
        }
    }
}

/// The copies of parameters are one for each, in their order, into the registers of
/// the span.
pub proof fn lemma_params_are_copied_in_their_order(
    results: RegisterSpanIter,
    params: &[TypedProvider],
    copies: Vec<RegisterCopy>,
)
    requires
        results.wf(),
        results.last.index - results.next.index == params@.len(),
        call_ensures(copies_of_params, (results, params), copies),
    ensures
        copies@.len() == params@.len(),
        forall|i: int|
            0 <= i < copies@.len() ==> {
                &&& (#[trigger] copies@[i]).value == params@[i]
                &&& copies@[i].result.index == results.next.index + i
            },
{
}

/// Ordered copies are the same copies, each once, in an order in which none
/// overwrites what a later one reads, unless the spare register is needed. It is not
/// needed if there is such an order at all. Copies that are in such an order
/// already stay as they are.
pub proof fn lemma_copies_are_ordered(
    copies: Vec<RegisterCopy>,
    spare: Register,
    result: (Vec<RegisterCopy>, bool),
    order: Seq<RegisterCopy>,
)
    requires
        call_ensures(order_copies, (copies, spare), result),
    ensures
        !result.1 ==> result.0@.to_multiset() == copies@.to_multiset() && keeps_inputs(result.0@),
        order.to_multiset() == copies@.to_multiset() && keeps_inputs(order) ==> !result.1,
        keeps_inputs(copies@) ==> result.0@ == copies@,
{
    if !result.1 {
        lemma_order_without_cycle(copies@, spare);
    }
    if order.to_multiset() == copies@.to_multiset() && keeps_inputs(order) {
        lemma_cycles_have_no_order(copies@, order);
    }
    if keeps_inputs(copies@) {
        lemma_order_is_kept(copies@, spare);
    }
}

/// Making ordered copies one after the other has the effect of making all of them
/// at once: every result gets the value that was to be read before the first copy
/// was made. Other registers keep their values, and so does the spare register
/// unless it is needed.
pub proof fn lemma_ordered_copies_lose_no_value(
    copies: Vec<RegisterCopy>,
    spare: Register,
    result: (Vec<RegisterCopy>, bool),
    frame: Map<Register, u64>,
)
    requires
        forall|i: int, j: int|
            0 <= i < j < copies@.len() ==> (#[trigger] copies@[i]).result != (
            #[trigger] copies@[j]).result,
        forall|i: int| 0 <= i < copies@.len() ==> (#[trigger] copies@[i]).result != spare,
        call_ensures(order_copies, (copies, spare), result),
    ensures
        ({
            let after = copied_all(result.0@, frame);
            &&& forall|i: int|
                0 <= i < copies@.len() ==> after[(#[trigger] copies@[i]).result] == read(
                    copies@[i].value,
                    frame,
                )
            &&& forall|other: Register|
                (forall|i: int| 0 <= i < copies@.len() ==> (#[trigger] copies@[i]).result != other)
                    && (other == spare ==> !result.1) ==> #[trigger] after[other] == frame[other]
        }),
{
    let results = results_of(copies@);
    assert(results.no_duplicates()) by {
        assert forall|i: int, j: int|
            0 <= i < j < results.len() implies results[i] != results[j] by {
            assert(copies@[i].result != copies@[j].result);
        }
    }
    assert(!results.contains(spare)) by {
        if results.contains(spare) {
            let k = results.index_of(spare);
            assert(copies@[k].result == spare);
        }
    }
    lemma_ordered_copies_happen_at_once(copies@, spare, frame);
    let after = copied_all(result.0@, frame);
    assert forall|other: Register|
        (forall|i: int| 0 <= i < copies@.len() ==> (#[trigger] copies@[i]).result != other) && (
        other == spare ==> !result.1) implies #[trigger] after[other] == frame[other] by {
        if results.contains(other) {
            let k = results.index_of(other);
            assert(copies@[k].result == other);
        }
    }
}

/// Copies are made one after the other: each reads what those before it have
/// written, writes its result, and leaves all other registers as they are.
pub proof fn lemma_copies_are_made_in_their_order(
    first: Seq<RegisterCopy>,
    copy: RegisterCopy,
    frame: Map<Register, u64>,
    other: Register,
)
    ensures
        ({
            let before = copied_all(first, frame);
            let after = copied_all(first.push(copy), frame);
            &&& after[copy.result] == read(copy.value, before)
            &&& other != copy.result ==> after[other] == before[other]
        }),
        copied_all(Seq::empty(), frame) == frame,
{
    assert(first.push(copy).drop_last() =~= first);
}

/// Copies and parameters can be encoded with any valid stack, once the registration
/// of local variables is finished.
pub proof fn lemma_valid_stacks_can_be_encoded_with(
    encoder: &mut InstrEncoder,
    stack: &mut ValueStack,
    result: Register,
    value: TypedProvider,
    params: &[TypedProvider],
)
    requires
        old(stack).wf(),
    ensures
        call_requires(InstrEncoder::encode_copy, (encoder, stack, result, value)),
        old(stack)@.registers.phase is Alloc ==> {
            &&& call_requires(InstrEncoder::encode_call_params, (encoder, stack, params))
            &&& call_requires(
                InstrEncoder::encode_conditional_branch_params,
                (encoder, stack, params),
            )
        },
{
}

} // verus!
