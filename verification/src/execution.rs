//! What encoded copies do when they are executed.
use crate::bytecode::instruction::Instruction;
use crate::bytecode::provider::{Provider, TypedProvider};
use crate::bytecode::register::{
    are_registers, contiguous_span, is_contiguous, register_range, Register, RegisterSpanIter,
};
use crate::copies::{
    copy_params, encode_branch_params, encode_call_params, encode_copies, encode_copy,
    lemma_encode_copies_extends, lemma_encode_copy_extends, EncodedParams,
};
use crate::error::TranslationError;
use crate::float::{lemma_widened_narrowed, narrowed, widened};
use crate::ordering::{
    first_ready, has_cycle, is_read, is_ready, lemma_first_ready, ordered, param_copies, redirected,
    results_of, RegisterCopy,
};
use crate::stack::consts::{can_intern, const_register, consts_valid, interned, register_of_place};
use crate::stack::laws::{
    keeps_tag, lemma_pop_n_undoes_push_dynamic_n, lemma_pop_n_undoes_push_n, lemma_push_all_appends,
    lemma_push_all_keeps_phase, lemma_push_n_undoes_pop_n, same_but_max_dynamic,
};
use crate::stack::model::{intern_all, lemma_interned_valid, ValueStackView};
use crate::value::UntypedValue;
use vstd::prelude::*;

verus! {

/// The registers of a function frame after a copy instruction was executed.
/// Other instructions are not modelled and count as doing nothing.
pub open spec fn executed(
    instruction: Instruction,
    frame: Map<Register, u64>,
) -> Map<Register, u64> {
    match instruction {
        Instruction::Copy { result, value } => frame.insert(result, frame[value]),
        Instruction::CopyImm32 { result, value } => frame.insert(result, value.bits as u64),
        Instruction::CopyI64Imm32 { result, value } => frame.insert(
            result,
            value.value as i64 as u64,
        ),
        Instruction::CopyF64Imm32 { result, value } => frame.insert(result, widened(value.bits)),
        _ => frame,
    }
}

/// The registers of a function frame after copy instructions were executed.
pub open spec fn executed_all(
    instrs: Seq<Instruction>,
    frame: Map<Register, u64>,
) -> Map<Register, u64>
    decreases instrs.len(),
{
    if instrs.len() == 0 {
        frame
    } else {
        executed(instrs.last(), executed_all(instrs.drop_last(), frame))
    }
}

/// Whether the registers of the function local constant values hold them.
pub open spec fn holds_consts(frame: Map<Register, u64>, consts: Seq<UntypedValue>) -> bool {
    forall|i: int|
        0 <= i < consts.len() ==> #[trigger] frame[register_of_place(i)] == consts[i].bits
}

/// The value that a provider stands for.
pub open spec fn value_of(provider: TypedProvider, frame: Map<Register, u64>) -> u64 {
    match provider {
        Provider::Register(register) => frame[register],
        Provider::Const(value) => value.value.bits,
    }
}

/// Whether the provider is a register or a well formed constant value.
pub open spec fn provider_wf(provider: TypedProvider) -> bool {
    provider matches Provider::Const(value) ==> value.wf()
}

/// The instructions that were added to `old_instrs`.
pub open spec fn added(
    old_instrs: Seq<Instruction>,
    new_instrs: Seq<Instruction>,
) -> Seq<Instruction> {
    new_instrs.skip(old_instrs.len() as int)
}

/// An encoded copy copies: executing it writes the value into `result` and
/// leaves every other register as it is.
pub proof fn lemma_encoded_copy_copies(
    instrs: Seq<Instruction>,
    consts: Seq<UntypedValue>,
    result: Register,
    value: TypedProvider,
    frame: Map<Register, u64>,
)
    requires
        consts_valid(consts),
        provider_wf(value),
        encode_copy(instrs, consts, result, value).outcome is Ok,
        holds_consts(frame, encode_copy(instrs, consts, result, value).consts),
    ensures
        ({
            let copied = encode_copy(instrs, consts, result, value);
            let after = executed_all(added(instrs, copied.instrs), frame);
            &&& after[result] == value_of(value, frame)
            &&& forall|other: Register| other != result ==> #[trigger] after[other] == frame[other]
        }),
{
    let copied = encode_copy(instrs, consts, result, value);
    let new = added(instrs, copied.instrs);
    lemma_encode_copy_extends(instrs, consts, result, value);
    if value == TypedProvider::Register(result) {
        assert(new =~= Seq::<Instruction>::empty());
    } else {
        let instruction = copied.instrs.last();
        assert(new =~= seq![instruction]);
        assert(new.drop_last() =~= Seq::<Instruction>::empty());
        reveal_with_fuel(executed_all, 2);
        assert(executed_all(new, frame) == executed(instruction, frame));
        if let Provider::Const(constant) = value {
            let bits = constant.value.bits;
            assert(bits <= u32::MAX ==> (bits as u32) as u64 == bits) by (bit_vector);
            assert(i32::MIN <= bits as i64 <= i32::MAX ==> ((bits as i64) as i32) as i64 as u64
                == bits) by (bit_vector);
            if narrowed(bits) is Some {
                lemma_widened_narrowed(bits);
            }
            if copied.consts.contains(constant.value) {
                let place = copied.consts.index_of(constant.value);
                assert(frame[register_of_place(place)] == bits);
            }
            if can_intern(consts, constant.value) && !consts.contains(constant.value) {
                assert(interned(consts, constant.value)[consts.len() as int] == constant.value);
            }
        }
    }
}

/// The registers of a frame after a copy was made.
pub open spec fn copied(copy: RegisterCopy, frame: Map<Register, u64>) -> Map<Register, u64> {
    frame.insert(copy.result, value_of(copy.value, frame))
}

/// The registers of a frame after copies were made one after the other.
pub open spec fn copied_all(
    copies: Seq<RegisterCopy>,
    frame: Map<Register, u64>,
) -> Map<Register, u64>
    decreases copies.len(),
{
    if copies.len() == 0 {
        frame
    } else {
        copied(copies.last(), copied_all(copies.drop_last(), frame))
    }
}

/// Whether the copies write no register of a constant value, and read registers
/// and well formed constant values.
pub open spec fn copies_wf(copies: Seq<RegisterCopy>) -> bool {
    forall|i: int|
        0 <= i < copies.len() ==> (#[trigger] copies[i]).result.index >= 0 && provider_wf(
            copies[i].value,
        )
}

/// Copies leave the registers of constant values as they are.
proof fn lemma_copies_keep_consts(copies: Seq<RegisterCopy>, frame: Map<Register, u64>)
    requires
        copies_wf(copies),
    ensures
        forall|register: Register|
            register.index < 0 ==> #[trigger] copied_all(copies, frame)[register]
                == frame[register],
    decreases copies.len(),
{
    if copies.len() > 0 {
        assert(copies_wf(copies.drop_last())) by {
            assert forall|i: int| 0 <= i < copies.len() - 1 implies (
            #[trigger] copies.drop_last()[i]).result.index >= 0 && provider_wf(
                copies.drop_last()[i].value,
            ) by {
                assert(copies.drop_last()[i] == copies[i]);
            }
        }
        lemma_copies_keep_consts(copies.drop_last(), frame);
        assert(copies[copies.len() - 1].result.index >= 0);
        assert forall|register: Register| register.index < 0 implies #[trigger] copied_all(
            copies,
            frame,
        )[register] == frame[register] by {
            assert(copied_all(copies.drop_last(), frame)[register] == frame[register]);
        }
    }
}

/// Encoded copies copy: executing them makes the copies, in their order.
pub proof fn lemma_encoded_copies_copy(
    instrs: Seq<Instruction>,
    consts: Seq<UntypedValue>,
    copies: Seq<RegisterCopy>,
    frame: Map<Register, u64>,
)
    requires
        consts_valid(consts),
        copies_wf(copies),
        encode_copies(instrs, consts, copies).outcome is Ok,
        holds_consts(frame, encode_copies(instrs, consts, copies).consts),
    ensures
        forall|register: Register|
            #[trigger] executed_all(
                added(instrs, encode_copies(instrs, consts, copies).instrs),
                frame,
            )[register] == copied_all(copies, frame)[register],
    decreases copies.len(),
{
    let encoded = encode_copies(instrs, consts, copies);
    if copies.len() == 0 {
        assert(added(instrs, encoded.instrs) =~= Seq::<Instruction>::empty());
    } else {
        let init = copies.drop_last();
        let copy = copies.last();
        let before = encode_copies(instrs, consts, init);
        let last = encode_copy(before.instrs, before.consts, copy.result, copy.value);
        lemma_encode_copies_extends(instrs, consts, init);
        lemma_encode_copy_extends(before.instrs, before.consts, copy.result, copy.value);
        assert(copies[copies.len() - 1] == copy);
        assert(copies_wf(init)) by {
            assert forall|i: int| 0 <= i < init.len() implies (#[trigger] init[i]).result.index >= 0
                && provider_wf(init[i].value) by {
                assert(init[i] == copies[i]);
            }
        }
        assert(holds_consts(frame, before.consts)) by {
            assert forall|i: int| 0 <= i < before.consts.len() implies #[trigger] frame[register_of_place(
                i,
            )] == before.consts[i].bits by {
                assert(before.consts[i] == encoded.consts[i]);
            }
        }
        lemma_encoded_copies_copy(instrs, consts, init, frame);
        let middle = executed_all(added(instrs, before.instrs), frame);
        lemma_copies_keep_consts(init, frame);
        assert(holds_consts(middle, last.consts)) by {
            assert forall|i: int| 0 <= i < last.consts.len() implies #[trigger] middle[register_of_place(
                i,
            )] == last.consts[i].bits by {
                let register = register_of_place(i);
                assert(register.index < 0);
                assert(copied_all(init, frame)[register] == frame[register]);
                assert(frame[register] == encoded.consts[i].bits);
            }
        }
        lemma_encoded_copy_copies(before.instrs, before.consts, copy.result, copy.value, middle);
        lemma_executed_all_add(
            added(instrs, before.instrs),
            added(before.instrs, last.instrs),
            frame,
        );
        assert(added(instrs, encoded.instrs) =~= added(instrs, before.instrs) + added(
            before.instrs,
            last.instrs,
        ));
    }
}

/// Making copies one after the other can be split anywhere.
proof fn lemma_copied_all_add(
    first: Seq<RegisterCopy>,
    second: Seq<RegisterCopy>,
    frame: Map<Register, u64>,
)
    ensures
        copied_all(first + second, frame) == copied_all(second, copied_all(first, frame)),
    decreases second.len(),
{
    if second.len() == 0 {
        assert(first + second =~= first);
    } else {
        assert((first + second).drop_last() =~= first + second.drop_last());
        assert((first + second).last() == second.last());
        lemma_copied_all_add(first, second.drop_last(), frame);
    }
}

/// Ordering copies keeps them well formed.
proof fn lemma_ordered_wf(copies: Seq<RegisterCopy>, spare: Register)
    requires
        copies_wf(copies),
        spare.index >= 0,
    ensures
        copies_wf(ordered(copies, spare)),
    decreases copies.len(),
{
    lemma_first_ready(copies, 0);
    let i = first_ready(copies, 0) as int;
    if copies.len() > 0 {
        let rest = if i < copies.len() {
            copies.remove(i)
        } else {
            redirected(copies.remove(0), copies[0].result, spare)
        };
        assert forall|k: int| 0 <= k < rest.len() implies (#[trigger] rest[k]).result.index >= 0
            && provider_wf(rest[k].value) by {
            let source = if i < copies.len() && k < i {
                k
            } else {
                k + 1
            };
            assert(copies[source].result.index >= 0);
        }
        lemma_ordered_wf(rest, spare);
        let tail = ordered(rest, spare);
        let all = ordered(copies, spare);
        assert forall|k: int| 0 <= k < all.len() implies (#[trigger] all[k]).result.index >= 0
            && provider_wf(all[k].value) by {
            let offset = all.len() - tail.len();
            if k >= offset {
                assert(all[k] == tail[k - offset]);
            } else if i < copies.len() {
                assert(all[k] == copies[i]);
            } else {
                assert(copies[0].result.index >= 0);
            }
        }
    }
}

/// Whether `after` is what copies that happen all at once make of `frame`. The
/// register `spare` counts only if the copies form no cycle.
pub open spec fn copied_at_once(
    copies: Seq<RegisterCopy>,
    spare: Register,
    frame: Map<Register, u64>,
    after: Map<Register, u64>,
) -> bool {
    &&& forall|i: int|
        0 <= i < copies.len() ==> after[(#[trigger] copies[i]).result] == value_of(
            copies[i].value,
            frame,
        )
    &&& forall|other: Register|
        !results_of(copies).contains(other) && (other == spare ==> !has_cycle(copies))
            ==> #[trigger] after[other] == frame[other]
}

/// Ordered copies copy: making them one after the other has the effect of copies
/// that happen all at once. No value is overwritten before it is read.
pub proof fn lemma_ordered_copies_happen_at_once(
    copies: Seq<RegisterCopy>,
    spare: Register,
    frame: Map<Register, u64>,
)
    requires
        results_of(copies).no_duplicates(),
        !results_of(copies).contains(spare),
    ensures
        copied_at_once(copies, spare, frame, copied_all(ordered(copies, spare), frame)),
    decreases copies.len(),
{
    lemma_first_ready(copies, 0);
    let i = first_ready(copies, 0) as int;
    let results = results_of(copies);
    if copies.len() == 0 {
    } else if i < copies.len() {
        let copy = copies[i];
        let rest = copies.remove(i);
        let middle = copied(copy, frame);
        let after = copied_all(ordered(copies, spare), frame);
        lemma_copied_all_add(seq![copy], ordered(rest, spare), frame);
        assert(seq![copy].drop_last() =~= Seq::<RegisterCopy>::empty());
        assert(copied_all(seq![copy], frame) == middle) by {
            reveal_with_fuel(copied_all, 2);
        }
        assert(results_of(rest) =~= results.remove(i));
        lemma_removed_results(results, i);
        lemma_ordered_copies_happen_at_once(rest, spare, middle);
        assert(results[i] == copy.result);
        assert forall|k: int| 0 <= k < copies.len() implies after[(#[trigger] copies[k]).result]
            == value_of(copies[k].value, frame) by {
            if k != i {
                let place = if k < i {
                    k
                } else {
                    k - 1
                };
                assert(rest[place] == copies[k]);
                assert(after[rest[place].result] == value_of(copies[k].value, middle));
                if copies[k].reads(copy.result) {
                    assert(copy.is_noop());
                }
            }
        }
    } else {
        let first = copies[0];
        let saved = RegisterCopy { result: spare, value: TypedProvider::Register(first.result) };
        let rest = redirected(copies.remove(0), first.result, spare);
        let with_saved = copied(saved, frame);
        let middle = copied(first, with_saved);
        let after = copied_all(ordered(copies, spare), frame);
        lemma_copied_all_add(seq![saved, first], ordered(rest, spare), frame);
        assert(seq![saved, first].drop_last() =~= seq![saved]);
        assert(seq![saved].drop_last() =~= Seq::<RegisterCopy>::empty());
        assert(copied_all(seq![saved, first], frame) == middle) by {
            reveal_with_fuel(copied_all, 3);
        }
        assert(results_of(rest) =~= results.remove(0));
        lemma_removed_results(results, 0);
        lemma_ordered_copies_happen_at_once(rest, spare, middle);
        assert(results[0] == first.result);
        assert forall|k: int| 0 <= k < copies.len() implies after[(#[trigger] copies[k]).result]
            == value_of(copies[k].value, frame) by {
            lemma_cycles_read_no_other(copies, spare);
            assert(!copies[0].reads(spare));
            assert(!is_ready(copies, 0));
            if k > 0 {
                assert(rest[k - 1] == copies[k].redirected(first.result, spare));
                assert(after[rest[k - 1].result] == value_of(rest[k - 1].value, middle));
                assert(!copies[k].reads(spare));
            }
        }
    }
}

/// What is left of the results when one of them is removed.
proof fn lemma_removed_results(results: Seq<Register>, i: int)
    requires
        results.no_duplicates(),
        0 <= i < results.len(),
    ensures
        results.remove(i).no_duplicates(),
        !results.remove(i).contains(results[i]),
        forall|register: Register|
            register != results[i] ==> (#[trigger] results.remove(i).contains(register)
                <==> results.contains(register)),
{
    let rest = results.remove(i);
    assert forall|register: Register| register != results[i] implies (
    #[trigger] rest.contains(register) <==> results.contains(register)) by {
        if rest.contains(register) {
            let k = rest.index_of(register);
            assert(results[if k < i {
                k
            } else {
                k + 1
            }] == register);
        }
        if results.contains(register) {
            let k = results.index_of(register);
            assert(rest[if k < i {
                k
            } else {
                k - 1
            }] == register);
        }
    }
}

/// Copies none of which can be made first read all the registers that they write,
/// and therefore no other ones.
proof fn lemma_cycles_read_no_other(copies: Seq<RegisterCopy>, other: Register)
    requires
        results_of(copies).no_duplicates(),
        !results_of(copies).contains(other),
        forall|i: int| 0 <= i < copies.len() ==> !#[trigger] is_ready(copies, i),
    ensures
        !is_read(copies, other),
{
    if is_read(copies, other) {
        let reader = choose|j: int| 0 <= j < copies.len() && (#[trigger] copies[j]).reads(other);
        let results = results_of(copies);
        let values = copies.map_values(|copy: RegisterCopy| copy.value);
        let rest = values.remove(reader);
        let wanted = results.map_values(|register: Register| TypedProvider::Register(register));
        assert(wanted.no_duplicates()) by {
            assert forall|i: int, j: int| 0 <= i < j < wanted.len() implies wanted[i] != wanted[j] by {
                assert(results[i] != results[j]);
            }
        }
        assert(wanted.to_set().subset_of(rest.to_set())) by {
            assert forall|value: TypedProvider| wanted.to_set().contains(value) implies
                rest.to_set().contains(value) by {
                let i = wanted.index_of(value);
                assert(!is_ready(copies, i));
                let j = choose|j: int|
                    0 <= j < copies.len() && (#[trigger] copies[j]).reads(copies[i].result);
                assert(results[i] != other);
                assert(j != reader);
                assert(rest[if j < reader {
                    j
                } else {
                    j - 1
                }] == value);
            }
        }
        wanted.unique_seq_to_set();
        rest.lemma_cardinality_of_set();
        vstd::seq_lib::seq_to_set_is_finite(rest);
        vstd::set_lib::lemma_len_subset(wanted.to_set(), rest.to_set());
    }
}

/// Executing instructions one after the other can be split anywhere.
proof fn lemma_executed_all_add(
    first: Seq<Instruction>,
    second: Seq<Instruction>,
    frame: Map<Register, u64>,
)
    ensures
        executed_all(first + second, frame) == executed_all(second, executed_all(first, frame)),
    decreases second.len(),
{
    if second.len() == 0 {
        assert(first + second =~= first);
    } else {
        assert((first + second).drop_last() =~= first + second.drop_last());
        assert((first + second).last() == second.last());
        lemma_executed_all_add(first, second.drop_last(), frame);
    }
}

/// What holds of encoded parameters: the returned span has one register for each
/// parameter, and executing the added instructions writes the value of each
/// parameter into its register and leaves all other registers as they are. Only if
/// the parameters have to change places in a cycle may the register behind the
/// span change as well.
pub open spec fn params_are_passed(
    instrs: Seq<Instruction>,
    params: Seq<TypedProvider>,
    encoded: EncodedParams,
    frame: Map<Register, u64>,
) -> bool {
    let span = encoded.outcome->Ok_0;
    let after = executed_all(added(instrs, encoded.instrs), frame);
    let cyclic = has_cycle(param_copies(span.next.index as int, params));
    &&& span.wf()
    &&& span@.len() == params.len()
    &&& instrs.is_prefix_of(encoded.instrs)
    &&& forall|i: int|
        0 <= i < params.len() ==> after[#[trigger] span@[i]] == value_of(params[i], frame)
    &&& forall|other: Register|
        !span@.contains(other) && (other == span.last ==> !cyclic) ==> #[trigger] after[other]
            == frame[other]
}

/// Encoded call parameters arrive in the span of registers that is returned.
pub proof fn lemma_call_params_are_passed(
    instrs: Seq<Instruction>,
    stack: ValueStackView,
    params: Seq<TypedProvider>,
    frame: Map<Register, u64>,
)
    requires
        stack.valid(),
        forall|i: int| 0 <= i < params.len() ==> provider_wf(#[trigger] params[i]),
        encode_call_params(instrs, stack, params).outcome is Ok,
        holds_consts(frame, encode_call_params(instrs, stack, params).stack.consts),
    ensures
        params_are_passed(instrs, params, encode_call_params(instrs, stack, params), frame),
{
    if is_contiguous(params) {
        lemma_contiguous_params_are_passed(
            instrs,
            params,
            encode_call_params(instrs, stack, params),
            frame,
        );
    } else {
        lemma_copied_params_are_passed(
            instrs,
            stack.peeked_dynamic(params.len()),
            stack.registers.next_dynamic,
            params.len() + 1,
            params,
            frame,
        );
    }
}

/// Encoded parameters of a conditional branch arrive in the span of registers
/// that is returned.
pub proof fn lemma_branch_params_are_passed(
    instrs: Seq<Instruction>,
    stack: ValueStackView,
    params: Seq<TypedProvider>,
    frame: Map<Register, u64>,
)
    requires
        stack.valid(),
        forall|i: int| 0 <= i < params.len() ==> provider_wf(#[trigger] params[i]),
        encode_branch_params(instrs, stack, params).outcome is Ok,
        holds_consts(frame, encode_branch_params(instrs, stack, params).stack.consts),
    ensures
        params_are_passed(instrs, params, encode_branch_params(instrs, stack, params), frame),
{
    if is_contiguous(params) {
        lemma_contiguous_params_are_passed(
            instrs,
            params,
            encode_branch_params(instrs, stack, params),
            frame,
        );
    } else {
        lemma_copied_params_are_passed(
            instrs,
            stack.pushed_dynamic(params.len()),
            stack.registers.next_dynamic,
            1,
            params,
            frame,
        );
    }
}

/// Contiguous parameters already are where they have to be.
proof fn lemma_contiguous_params_are_passed(
    instrs: Seq<Instruction>,
    params: Seq<TypedProvider>,
    encoded: EncodedParams,
    frame: Map<Register, u64>,
)
    requires
        is_contiguous(params),
        encoded.instrs == instrs,
        encoded.outcome == Ok::<RegisterSpanIter, TranslationError>(contiguous_span(params)),
    ensures
        params_are_passed(instrs, params, encoded, frame),
{
    let span = contiguous_span(params);
    assert(added(instrs, instrs) =~= Seq::<Instruction>::empty());
    assert(span@ =~= register_range(span.next.index as int, params.len()));
    assert forall|i: int| 0 <= i < params.len() implies frame[#[trigger] span@[i]] == value_of(
        params[i],
        frame,
    ) by {
        assert(params[i] == TypedProvider::Register(span@[i]));
    }
}

/// Copied parameters arrive in the registers that they are copied to.
proof fn lemma_copied_params_are_passed(
    instrs: Seq<Instruction>,
    stack: ValueStackView,
    head: int,
    reserve: nat,
    params: Seq<TypedProvider>,
    frame: Map<Register, u64>,
)
    requires
        consts_valid(stack.consts),
        forall|i: int| 0 <= i < params.len() ==> provider_wf(#[trigger] params[i]),
        0 <= head,
        head + params.len() <= i16::MAX,
        copy_params(instrs, stack, head, reserve, params).outcome is Ok,
        holds_consts(frame, copy_params(instrs, stack, head, reserve, params).stack.consts),
    ensures
        params_are_passed(
            instrs,
            params,
            copy_params(instrs, stack, head, reserve, params),
            frame,
        ),
{
    let copies = param_copies(head, params);
    let results = register_range(head, params.len());
    let spare = Register::at(head + params.len());
    let span = copy_params(instrs, stack, head, reserve, params).outcome->Ok_0;
    assert(span@ =~= results);
    assert(results_of(copies) =~= results);
    assert(copies_wf(copies)) by {
        assert forall|i: int| 0 <= i < copies.len() implies (#[trigger] copies[i]).result.index >= 0
            && provider_wf(copies[i].value) by {
            assert(provider_wf(params[i]));
        }
    }
    lemma_ordered_wf(copies, spare);
    lemma_encode_copies_extends(instrs, stack.consts, ordered(copies, spare));
    lemma_encoded_copies_copy(instrs, stack.consts, ordered(copies, spare), frame);
    lemma_ordered_copies_happen_at_once(copies, spare, frame);
    let after = copied_all(ordered(copies, spare), frame);
    assert forall|i: int| 0 <= i < params.len() implies after[#[trigger] span@[i]] == value_of(
        params[i],
        frame,
    ) by {
        assert(copies[i].result == span@[i]);
    }
}

/// Branch parameters that were popped from the stack and need no copies are put
/// back on the stack, which is then what it was before.
pub proof fn lemma_branch_params_are_put_back(
    instrs: Seq<Instruction>,
    stack: ValueStackView,
    n: int,
)
    requires
        stack.valid(),
        0 <= n <= stack.height(),
        forall|i: int|
            stack.height() - n <= i < stack.height() ==> keeps_tag(
                stack,
                #[trigger] stack.providers[i],
            ),
        is_contiguous(stack.top(n)),
    ensures
        encode_branch_params(instrs, stack.truncated(stack.height() - n), stack.top(n)) == (
        EncodedParams { instrs, stack, outcome: Ok(contiguous_span(stack.top(n))) }),
{
    lemma_push_n_undoes_pop_n(stack, n);
}

/// Call parameters and branch parameters are encoded alike: if both succeed they
/// give the same span of registers, the same instructions and the same constant
/// values. They differ in the stack only. A call leaves the providers as they are,
/// a branch has the registers of the span on top of them, and popping those gives
/// the stack that the call leaves, but for the greatest number of allocated
/// registers. Where copies are needed one succeeds if and only if the other does.
pub proof fn lemma_call_and_branch_params_agree(
    instrs: Seq<Instruction>,
    stack: ValueStackView,
    params: Seq<TypedProvider>,
)
    ensures
        ({
            let call = encode_call_params(instrs, stack, params);
            let branch = encode_branch_params(instrs, stack, params);
            call.outcome is Ok && branch.outcome is Ok ==> {
                &&& call.outcome == branch.outcome
                &&& call.instrs == branch.instrs
                &&& call.stack.consts == branch.stack.consts
                &&& call.stack.providers == stack.providers
                &&& call.stack.height() == stack.height()
                &&& branch.stack.height() == stack.height() + params.len()
                &&& branch.stack.providers.take(stack.height() as int) == stack.providers
                &&& same_but_max_dynamic(
                    branch.stack.truncated(stack.height() as int),
                    call.stack,
                )
            }
        }),
        ({
            let call = encode_call_params(instrs, stack, params);
            let branch = encode_branch_params(instrs, stack, params);
            !is_contiguous(params) ==> call.outcome == branch.outcome && call.instrs
                == branch.instrs && call.stack.consts == branch.stack.consts
        }),
{
    let height = stack.height() as int;
    let branch = encode_branch_params(instrs, stack, params);
    if is_contiguous(params) {
        let after = stack.push_all(params).0;
        lemma_push_all_appends(stack, params);
        lemma_pop_n_undoes_push_n(stack, params);
        assert(after.providers.take(height) =~= stack.providers);
    } else {
        let pushed = stack.pushed_dynamic(params.len());
        lemma_pop_n_undoes_push_dynamic_n(stack, params.len());
        assert(pushed.providers.take(height) =~= stack.providers);
        if branch.outcome is Ok {
            assert(branch.stack.providers == pushed.providers);
        }
    }
}

/// A branch whose parameters were encoded has the registers of the span that is
/// returned on top of the stack.
pub proof fn lemma_branch_params_are_on_top(
    instrs: Seq<Instruction>,
    stack: ValueStackView,
    params: Seq<TypedProvider>,
)
    requires
        stack.valid(),
        encode_branch_params(instrs, stack, params).outcome is Ok,
    ensures
        ({
            let branch = encode_branch_params(instrs, stack, params);
            are_registers(branch.stack.top(params.len() as int), branch.outcome->Ok_0@)
        }),
{
    let branch = encode_branch_params(instrs, stack, params);
    let span = branch.outcome->Ok_0;
    if is_contiguous(params) {
        lemma_pop_n_undoes_push_n(stack, params);
        assert(span@ =~= register_range(span.next.index as int, params.len()));
    } else {
        let head = stack.registers.next_dynamic;
        lemma_pop_n_undoes_push_dynamic_n(stack, params.len());
        assert(span@ =~= register_range(head, params.len()));
        assert(branch.stack.top(params.len() as int) == stack.pushed_dynamic(params.len()).top(
            params.len() as int,
        ));
    }
}

/// The registers that parameters are copied to are among those that the function
/// needs, and so is the register that a cycle needs as well.
pub proof fn lemma_copied_params_are_counted(
    instrs: Seq<Instruction>,
    stack: ValueStackView,
    params: Seq<TypedProvider>,
)
    requires
        stack.valid(),
        !is_contiguous(params),
    ensures
        ({
            let encoded = encode_call_params(instrs, stack, params);
            let span = encoded.outcome->Ok_0;
            let cyclic = has_cycle(param_copies(span.next.index as int, params));
            encoded.outcome is Ok ==> {
                &&& stack.registers.next_dynamic == span.next.index
                &&& span.last.index <= encoded.stack.registers.len_registers()
                &&& cyclic ==> span.last.index < encoded.stack.registers.len_registers()
            }
        }),
        ({
            let encoded = encode_branch_params(instrs, stack, params);
            let span = encoded.outcome->Ok_0;
            let cyclic = has_cycle(param_copies(span.next.index as int, params));
            encoded.outcome is Ok ==> {
                &&& stack.registers.next_dynamic == span.next.index
                &&& span.last.index <= encoded.stack.registers.len_registers()
                &&& cyclic ==> span.last.index < encoded.stack.registers.len_registers()
            }
        }),
{
}

/// Encoding parameters keeps the phase of the register allocation.
pub proof fn lemma_encoded_params_keep_phase(
    instrs: Seq<Instruction>,
    stack: ValueStackView,
    params: Seq<TypedProvider>,
)
    ensures
        encode_call_params(instrs, stack, params).stack.registers.phase == stack.registers.phase,
        encode_branch_params(instrs, stack, params).stack.registers.phase
            == stack.registers.phase,
{
    lemma_push_all_keeps_phase(stack, params);
}

/// Turning providers into registers only adds constant values.
proof fn lemma_intern_all_extends(consts: Seq<UntypedValue>, providers: Seq<TypedProvider>)
    requires
        consts_valid(consts),
    ensures
        consts.is_prefix_of(intern_all(consts, providers).consts),
        consts_valid(intern_all(consts, providers).consts),
        intern_all(consts, providers).registers.len() <= providers.len(),
        intern_all(consts, providers).complete ==> intern_all(consts, providers).registers.len()
            == providers.len(),
    decreases providers.len(),
{
    if providers.len() > 0 {
        lemma_intern_all_extends(consts, providers.drop_last());
        let before = intern_all(consts, providers.drop_last());
        if let Provider::Const(value) = providers.last() {
            if can_intern(before.consts, value.value) {
                lemma_interned_valid(before.consts, value.value);
            }
        }
    }
}

/// The register of an allocated constant value holds it.
proof fn lemma_const_register_holds_value(
    consts: Seq<UntypedValue>,
    value: UntypedValue,
    frame: Map<Register, u64>,
)
    requires
        can_intern(consts, value),
        holds_consts(frame, interned(consts, value)),
    ensures
        frame[const_register(interned(consts, value), value)] == value.bits,
{
    let consts_after = interned(consts, value);
    if !consts.contains(value) {
        assert(consts_after[consts.len() as int] == value);
    }
    let place = consts_after.index_of(value);
    assert(frame[register_of_place(place)] == consts_after[place].bits);
}

/// The registers that providers are turned into hold the values of the
/// providers, and registers of earlier constant values stay the same.
pub proof fn lemma_interned_registers_hold_values(
    consts: Seq<UntypedValue>,
    providers: Seq<TypedProvider>,
    frame: Map<Register, u64>,
)
    requires
        consts_valid(consts),
        intern_all(consts, providers).complete,
        holds_consts(frame, intern_all(consts, providers).consts),
    ensures
        consts.is_prefix_of(intern_all(consts, providers).consts),
        intern_all(consts, providers).registers.len() == providers.len(),
        forall|i: int|
            0 <= i < providers.len() ==> frame[#[trigger] intern_all(
                consts,
                providers,
            ).registers[i]] == value_of(providers[i], frame),
    decreases providers.len(),
{
    lemma_intern_all_extends(consts, providers);
    if providers.len() > 0 {
        let all = intern_all(consts, providers);
        let before = intern_all(consts, providers.drop_last());
        lemma_intern_all_extends(consts, providers.drop_last());
        assert(before.consts.is_prefix_of(all.consts));
        assert forall|i: int| 0 <= i < before.consts.len() implies #[trigger] frame[register_of_place(
            i,
        )] == before.consts[i].bits by {
            assert(frame[register_of_place(i)] == all.consts[i].bits);
        }
        lemma_interned_registers_hold_values(consts, providers.drop_last(), frame);
        if let Provider::Const(value) = providers.last() {
            lemma_const_register_holds_value(before.consts, value.value, frame);
        }
        assert forall|i: int| 0 <= i < providers.len() implies frame[#[trigger] all.registers[i]]
            == value_of(providers[i], frame) by {
            if i < providers.len() - 1 {
                assert(all.registers[i] == before.registers[i]);
                assert(frame[before.registers[i]] == value_of(providers.drop_last()[i], frame));
            }
        }
    }
}

/// The register of a popped provider holds the value of the provider.
pub proof fn lemma_popped_register_holds_value(stack: ValueStackView, frame: Map<Register, u64>)
    requires
        stack.height() >= 1,
        stack.pop_as_register().1 is Ok,
        holds_consts(frame, stack.pop_as_register().0.consts),
    ensures
        frame[stack.pop_as_register().1->Ok_0] == value_of(
            stack.providers.last().untagged(),
            frame,
        ),
{
    if let Provider::Const(value) = stack.providers.last().untagged() {
        lemma_const_register_holds_value(stack.consts, value.value, frame);
    }
}

/// The registers of two popped providers hold the values of the providers, in
/// the order in which they were on the stack.
pub proof fn lemma_popped_registers_hold_values(stack: ValueStackView, frame: Map<Register, u64>)
    requires
        stack.valid(),
        stack.height() >= 2,
        stack.pop2_as_registers().1 is Ok,
        holds_consts(frame, stack.pop2_as_registers().0.consts),
    ensures
        ({
            let (lhs, rhs) = stack.pop2_as_registers().1->Ok_0;
            &&& frame[lhs] == value_of(stack.top(2)[0], frame)
            &&& frame[rhs] == value_of(stack.top(2)[1], frame)
            &&& stack.consts.is_prefix_of(stack.pop2_as_registers().0.consts)
        }),
{
    let first = stack.pop_as_register().0;
    let second = first.pop_as_register().0;
    assert(first.consts.is_prefix_of(second.consts));
    assert forall|i: int| 0 <= i < first.consts.len() implies #[trigger] frame[register_of_place(i)]
        == first.consts[i].bits by {
        assert(frame[register_of_place(i)] == second.consts[i].bits);
    }
    lemma_popped_register_holds_value(stack, frame);
    lemma_popped_register_holds_value(first, frame);
    assert(first.providers.last() == stack.providers[stack.height() - 2]);
}

/// The registers of three popped providers hold the values of the providers, in
/// the order in which they were on the stack.
pub proof fn lemma_three_popped_registers_hold_values(
    stack: ValueStackView,
    frame: Map<Register, u64>,
)
    requires
        stack.valid(),
        stack.height() >= 3,
        stack.pop3_as_registers().1 is Ok,
        holds_consts(frame, stack.pop3_as_registers().0.consts),
    ensures
        ({
            let (v0, v1, v2) = stack.pop3_as_registers().1->Ok_0;
            &&& frame[v0] == value_of(stack.top(3)[0], frame)
            &&& frame[v1] == value_of(stack.top(3)[1], frame)
            &&& frame[v2] == value_of(stack.top(3)[2], frame)
            &&& stack.consts.is_prefix_of(stack.pop3_as_registers().0.consts)
        }),
{
    let upper = stack.pop2_as_registers().0;
    let lower = upper.pop_as_register().0;
    assert(upper.consts.is_prefix_of(lower.consts));
    assert forall|i: int| 0 <= i < upper.consts.len() implies #[trigger] frame[register_of_place(i)]
        == upper.consts[i].bits by {
        assert(frame[register_of_place(i)] == lower.consts[i].bits);
    }
    lemma_popped_registers_hold_values(stack, frame);
    lemma_popped_register_holds_value(upper, frame);
    assert(upper.providers.last() == stack.providers[stack.height() - 3]);
    assert(stack.top(3)[1] == stack.top(2)[0]);
    assert(stack.top(3)[2] == stack.top(2)[1]);
}

} // verus!
