//! Copies of values into registers and how they are encoded.
use crate::bytecode::branch::Instr;
use crate::bytecode::immediate::{AnyConst32, F64Const32, I64Const32};
use crate::bytecode::instruction::Instruction;
use crate::bytecode::provider::{Provider, TypedProvider};
use crate::bytecode::register::{contiguous_span, is_contiguous, Register, RegisterSpanIter};
use crate::encoder::push_instr;
use crate::error::TranslationError;
use crate::float::narrowed;
use crate::ordering::{has_cycle, ordered, param_copies, RegisterCopy};
use crate::stack::consts::{can_intern, const_register, consts_valid, interned, too_many_consts};
use crate::stack::model::{lemma_interned_valid, ValueStackView};
use crate::stack::register_alloc::too_many_registers;
use crate::value::{TypedValue, UntypedValue, ValueType};
use vstd::prelude::*;

verus! {

/// The instruction that copies a constant value into `result` by way of a
/// function local constant value, with the constant values afterwards.
pub open spec fn copy_from_pool(
    consts: Seq<UntypedValue>,
    result: Register,
    value: UntypedValue,
) -> (Seq<UntypedValue>, Result<Instruction, TranslationError>) {
    if can_intern(consts, value) {
        let consts = interned(consts, value);
        (consts, Ok(Instruction::Copy { result, value: const_register(consts, value) }))
    } else {
        (consts, Err(too_many_consts()))
    }
}

/// The instruction that copies a constant value into `result`, with the function
/// local constant values afterwards. Values that fit into 32 bits become part of
/// the instruction.
pub open spec fn copy_of_const(
    consts: Seq<UntypedValue>,
    result: Register,
    value: TypedValue,
) -> (Seq<UntypedValue>, Result<Instruction, TranslationError>) {
    let bits = value.value.bits;
    match value.ty {
        ValueType::I32 | ValueType::F32 => (
            consts,
            Ok(Instruction::CopyImm32 { result, value: AnyConst32 { bits: bits as u32 } }),
        ),
        ValueType::I64 => if i32::MIN <= bits as i64 <= i32::MAX {
            (
                consts,
                Ok(
                    Instruction::CopyI64Imm32 {
                        result,
                        value: I64Const32 { value: (bits as i64) as i32 },
                    },
                ),
            )
        } else {
            copy_from_pool(consts, result, value.value)
        },
        ValueType::F64 => match narrowed(bits) {
            Some(narrow) => (
                consts,
                Ok(Instruction::CopyF64Imm32 { result, value: F64Const32 { bits: narrow } }),
            ),
            None => copy_from_pool(consts, result, value.value),
        },
        ValueType::FuncRef | ValueType::ExternRef => copy_from_pool(consts, result, value.value),
    }
}

/// What encoding copies makes of the instructions and of the function local
/// constant values, and what it returns.
#[verifier::ext_equal]
pub struct Copied<T> {
    /// The instructions afterwards.
    pub instrs: Seq<Instruction>,
    /// The constant values afterwards.
    pub consts: Seq<UntypedValue>,
    /// What is returned.
    pub outcome: Result<T, TranslationError>,
}

/// Encodes a copy of `value` into `result`. Copying a register into itself needs
/// no instruction.
pub open spec fn encode_copy(
    instrs: Seq<Instruction>,
    consts: Seq<UntypedValue>,
    result: Register,
    value: TypedProvider,
) -> Copied<Option<Instr>> {
    if value == TypedProvider::Register(result) {
        Copied { instrs, consts, outcome: Ok(None) }
    } else {
        let (consts, instruction) = match value {
            Provider::Register(value) => (consts, Ok(Instruction::Copy { result, value })),
            Provider::Const(value) => copy_of_const(consts, result, value),
        };
        match instruction {
            Err(error) => Copied { instrs, consts, outcome: Err(error) },
            Ok(instruction) => {
                let (instrs, pushed) = push_instr(instrs, instruction);
                let outcome = match pushed {
                    Ok(instr) => Ok(Some(instr)),
                    Err(error) => Err(error),
                };
                Copied { instrs, consts, outcome }
            },
        }
    }
}

/// Encodes copies, one after the other, until one of them fails.
pub open spec fn encode_copies(
    instrs: Seq<Instruction>,
    consts: Seq<UntypedValue>,
    copies: Seq<RegisterCopy>,
) -> Copied<()>
    decreases copies.len(),
{
    if copies.len() == 0 {
        Copied { instrs, consts, outcome: Ok(()) }
    } else {
        let before = encode_copies(instrs, consts, copies.drop_last());
        match before.outcome {
            Err(_) => before,
            Ok(_) => {
                let last = encode_copy(
                    before.instrs,
                    before.consts,
                    copies.last().result,
                    copies.last().value,
                );
                let outcome = match last.outcome {
                    Ok(_) => Ok(()),
                    Err(error) => Err(error),
                };
                Copied { instrs: last.instrs, consts: last.consts, outcome }
            },
        }
    }
}

/// Encoding longer lists of copies starts with encoding shorter ones.
pub proof fn lemma_encode_copies_stops(
    instrs: Seq<Instruction>,
    consts: Seq<UntypedValue>,
    copies: Seq<RegisterCopy>,
    n: int,
)
    requires
        0 <= n <= copies.len(),
        encode_copies(instrs, consts, copies.take(n)).outcome is Err,
    ensures
        encode_copies(instrs, consts, copies) == encode_copies(instrs, consts, copies.take(n)),
    decreases copies.len(),
{
    if n == copies.len() {
        assert(copies.take(n) =~= copies);
    } else {
        assert(copies.drop_last().take(n) =~= copies.take(n));
        lemma_encode_copies_stops(instrs, consts, copies.drop_last(), n);
    }
}

/// What encoding parameters makes of the instructions and of the value stack,
/// and what it returns.
#[verifier::ext_equal]
pub struct EncodedParams {
    /// The instructions afterwards.
    pub instrs: Seq<Instruction>,
    /// The value stack afterwards.
    pub stack: ValueStackView,
    /// What is returned.
    pub outcome: Result<RegisterSpanIter, TranslationError>,
}

/// Encodes copies of `params` into the registers from `head` on. The copies are
/// ordered so that no parameter is overwritten before it is copied.
///
/// If the copies form a cycle then the register behind those of the parameters is
/// used as well. It is the last one of the next `reserve` dynamic registers, which
/// are allocated for that and freed again.
pub open spec fn copy_params(
    instrs: Seq<Instruction>,
    stack: ValueStackView,
    head: int,
    reserve: nat,
    params: Seq<TypedProvider>,
) -> EncodedParams {
    let copies = param_copies(head, params);
    let spare = Register::at(head + params.len());
    if has_cycle(copies) && !stack.registers.can_push_dynamic(reserve as int) {
        EncodedParams { instrs, stack, outcome: Err(too_many_registers()) }
    } else {
        let stack = if has_cycle(copies) {
            stack.peeked_dynamic(reserve)
        } else {
            stack
        };
        let copied = encode_copies(instrs, stack.consts, ordered(copies, spare));
        EncodedParams {
            instrs: copied.instrs,
            stack: stack.with_consts(copied.consts),
            outcome: match copied.outcome {
                Ok(_) => Ok(RegisterSpanIter { next: Register::at(head), last: spare }),
                Err(error) => Err(error),
            },
        }
    }
}

/// Encodes the parameters of a call. Parameters that already are contiguous
/// registers stay where they are, others are copied to the next dynamic
/// registers.
pub open spec fn encode_call_params(
    instrs: Seq<Instruction>,
    stack: ValueStackView,
    params: Seq<TypedProvider>,
) -> EncodedParams {
    if is_contiguous(params) {
        EncodedParams { instrs, stack, outcome: Ok(contiguous_span(params)) }
    } else if !stack.registers.can_push_dynamic(params.len() as int) {
        EncodedParams { instrs, stack, outcome: Err(too_many_registers()) }
    } else {
        let head = stack.registers.next_dynamic;
        copy_params(
            instrs,
            stack.peeked_dynamic(params.len()),
            head,
            params.len() + 1,
            params,
        )
    }
}

/// Encodes the parameters of a conditional branch. Parameters that already are
/// contiguous registers are put back on the stack, others are copied to newly
/// pushed dynamic registers.
pub open spec fn encode_branch_params(
    instrs: Seq<Instruction>,
    stack: ValueStackView,
    params: Seq<TypedProvider>,
) -> EncodedParams {
    if is_contiguous(params) {
        let (stack, pushed) = stack.push_all(params);
        let outcome = match pushed {
            Ok(_) => Ok(contiguous_span(params)),
            Err(error) => Err(error),
        };
        EncodedParams { instrs, stack, outcome }
    } else if !stack.registers.can_push_dynamic(params.len() as int) {
        EncodedParams { instrs, stack, outcome: Err(too_many_registers()) }
    } else {
        let head = stack.registers.next_dynamic;
        copy_params(instrs, stack.pushed_dynamic(params.len()), head, 1, params)
    }
}

/// Encoding a copy only adds instructions and constant values.
pub proof fn lemma_encode_copy_extends(
    instrs: Seq<Instruction>,
    consts: Seq<UntypedValue>,
    result: Register,
    value: TypedProvider,
)
    requires
        consts_valid(consts),
    ensures
        ({
            let copied = encode_copy(instrs, consts, result, value);
            &&& instrs.is_prefix_of(copied.instrs)
            &&& consts.is_prefix_of(copied.consts)
            &&& consts_valid(copied.consts)
        }),
{
    if let Provider::Const(value) = value {
        if can_intern(consts, value.value) {
            lemma_interned_valid(consts, value.value);
        }
    }
}

/// Encoding copies only adds instructions and constant values.
pub proof fn lemma_encode_copies_extends(
    instrs: Seq<Instruction>,
    consts: Seq<UntypedValue>,
    copies: Seq<RegisterCopy>,
)
    requires
        consts_valid(consts),
    ensures
        ({
            let copied = encode_copies(instrs, consts, copies);
            &&& instrs.is_prefix_of(copied.instrs)
            &&& consts.is_prefix_of(copied.consts)
            &&& consts_valid(copied.consts)
        }),
    decreases copies.len(),
{
    if copies.len() > 0 {
        lemma_encode_copies_extends(instrs, consts, copies.drop_last());
        let before = encode_copies(instrs, consts, copies.drop_last());
        if before.outcome is Ok {
            lemma_encode_copy_extends(
                before.instrs,
                before.consts,
                copies.last().result,
                copies.last().value,
            );
        }
    }
}

} // verus!
