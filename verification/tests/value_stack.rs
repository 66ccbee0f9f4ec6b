use regmach::bytecode::branch::Instr;
use regmach::bytecode::provider::{Provider, TypedProvider};
use regmach::bytecode::register::Register;
use regmach::encoder::InstrEncoder;
use regmach::error::{TranslationError, TranslationErrorInner};
use regmach::func_type::FuncType;
use regmach::stack::ValueStack;
use regmach::value::{TypedValue, UntypedValue, ValueType, F32, F64};

fn reg(index: i16) -> Register {
    Register::from_i16(index)
}

fn register(index: i16) -> TypedProvider {
    Provider::Register(reg(index))
}

fn constant<T: Into<TypedValue>>(value: T) -> TypedProvider {
    Provider::Const(value.into())
}

fn error<T>(inner: TranslationErrorInner) -> Result<T, TranslationError> {
    Err(TranslationError::new(inner))
}

/// A stack with the given number of locals, ready for allocation.
fn stack_with_locals(locals: u32) -> ValueStack {
    let mut stack = ValueStack::default();
    stack.register_locals(locals).unwrap();
    stack.finish_register_locals();
    stack
}

fn consts_of(stack: &ValueStack) -> Vec<u64> {
    let mut iter = stack.func_local_consts();
    let mut consts = Vec::new();
    while let Some(value) = iter.next() {
        consts.push(value.to_bits());
    }
    consts
}

/// Fills the space of function local constant values.
fn fill_consts(stack: &mut ValueStack) {
    for value in 0..i16::MAX as i64 {
        stack.alloc_const(value).unwrap();
    }
}

#[test]
fn new_stack_is_empty() {
    let stack = ValueStack::default();
    assert_eq!(stack.height(), 0);
    assert_eq!(stack.len_registers(), 0);
    assert_eq!(consts_of(&stack), Vec::<u64>::new());
}

#[test]
fn locals_are_counted_as_registers() {
    let mut stack = ValueStack::default();
    assert_eq!(stack.register_locals(2), Ok(()));
    assert_eq!(stack.register_locals(3), Ok(()));
    assert_eq!(stack.len_registers(), 5);
    stack.finish_register_locals();
    assert_eq!(stack.len_registers(), 5);
    assert_eq!(stack.push_dynamic(), Ok(reg(5)));
    assert_eq!(stack.len_registers(), 6);
}

#[test]
fn too_many_locals_are_rejected() {
    let mut stack = ValueStack::default();
    assert_eq!(
        stack.register_locals(u32::MAX),
        error(TranslationErrorInner::AllocatedTooManyRegisters)
    );
    assert_eq!(stack.len_registers(), 0);
    assert_eq!(stack.register_locals(32767), Ok(()));
    assert_eq!(
        stack.register_locals(1),
        error(TranslationErrorInner::AllocatedTooManyRegisters)
    );
    stack.finish_register_locals();
    assert_eq!(
        stack.push_dynamic(),
        error(TranslationErrorInner::AllocatedTooManyRegisters)
    );
    assert_eq!(stack.height(), 0);
    assert_eq!(stack.len_registers(), 32767);
}

#[test]
fn push_local_checks_its_index() {
    let mut stack = stack_with_locals(2);
    assert_eq!(stack.push_local(0), Ok(reg(0)));
    assert_eq!(stack.push_local(1), Ok(reg(1)));
    assert_eq!(
        stack.push_local(2),
        error(TranslationErrorInner::RegisterOutOfBounds)
    );
    assert_eq!(
        stack.push_local(3),
        error(TranslationErrorInner::RegisterOutOfBounds)
    );
    assert_eq!(
        stack.push_local(u32::MAX),
        error(TranslationErrorInner::RegisterOutOfBounds)
    );
    assert_eq!(stack.height(), 2);
    assert_eq!(stack.push_dynamic(), Ok(reg(2)));
    let mut stack = stack_with_locals(0);
    assert_eq!(
        stack.push_local(0),
        error(TranslationErrorInner::RegisterOutOfBounds)
    );
    assert_eq!(stack.height(), 0);
}

#[test]
fn pops_come_in_reverse_order() {
    let mut stack = stack_with_locals(1);
    stack.push_local(0).unwrap();
    stack.push_const(7i32);
    stack.push_dynamic().unwrap();
    assert_eq!(stack.peek(), register(1));
    assert_eq!(stack.pop(), register(1));
    assert_eq!(stack.pop(), constant(7i32));
    assert_eq!(stack.pop(), register(0));
    assert_eq!(stack.height(), 0);
    // The register is free again, and is still counted.
    assert_eq!(stack.len_registers(), 2);
    assert_eq!(stack.push_dynamic(), Ok(reg(1)));
}

#[test]
fn pop2_and_pop3_keep_the_order() {
    let mut stack = stack_with_locals(0);
    stack.push_const(1i64);
    stack.push_const(2i64);
    stack.push_const(3i64);
    stack.push_const(4i64);
    stack.push_const(5i64);
    assert_eq!(stack.pop2(), (constant(4i64), constant(5i64)));
    assert_eq!(
        stack.pop3(),
        (constant(1i64), constant(2i64), constant(3i64))
    );
    assert_eq!(stack.height(), 0);
}

#[test]
fn constants_are_deduplicated() {
    let mut stack = ValueStack::default();
    assert_eq!(stack.alloc_const(10i64), Ok(reg(-1)));
    assert_eq!(stack.alloc_const(20i64), Ok(reg(-2)));
    assert_eq!(stack.alloc_const(10i64), Ok(reg(-1)));
    // The same bits of another type share the register.
    assert_eq!(stack.alloc_const(20i32), Ok(reg(-2)));
    assert_eq!(stack.alloc_const(UntypedValue { bits: 30 }), Ok(reg(-3)));
    assert_eq!(stack.alloc_const(TypedValue::from(-1i32)), Ok(reg(-4)));
    assert_eq!(consts_of(&stack), vec![0xffff_ffff, 30, 20, 10]);
    assert_eq!(stack.len_registers(), 4);
}

#[test]
fn too_many_constants_are_rejected() {
    let mut stack = stack_with_locals(0);
    fill_consts(&mut stack);
    assert_eq!(stack.len_registers(), 32767);
    assert_eq!(
        stack.alloc_const(-1i64),
        error(TranslationErrorInner::TooManyFuncLocalConstValues)
    );
    // A value that is already there still has its register.
    assert_eq!(stack.alloc_const(0i64), Ok(reg(-1)));
    assert_eq!(stack.alloc_const(32766i64), Ok(reg(-32767)));
    assert_eq!(stack.len_registers(), 32767);
}

#[test]
fn pop_as_register_allocates_constants() {
    let mut stack = stack_with_locals(1);
    stack.push_const(9i32);
    stack.push_local(0).unwrap();
    assert_eq!(stack.pop_as_register(), Ok(reg(0)));
    assert_eq!(stack.pop_as_register(), Ok(reg(-1)));
    assert_eq!(consts_of(&stack), vec![9]);
}

#[test]
fn pop2_as_registers_allocates_the_top_first() {
    let mut stack = stack_with_locals(0);
    stack.push_const(1i64);
    stack.push_const(2i64);
    assert_eq!(stack.pop2_as_registers(), Ok((reg(-2), reg(-1))));
    assert_eq!(consts_of(&stack), vec![1, 2]);
}

#[test]
fn pop3_as_registers_allocates_the_top_first() {
    let mut stack = stack_with_locals(0);
    let dynamic = stack.push_dynamic().unwrap();
    stack.push_const(1i64);
    stack.push_const(1i64);
    assert_eq!(
        stack.pop3_as_registers(),
        Ok((dynamic, reg(-1), reg(-1)))
    );
    assert_eq!(stack.height(), 0);
}

#[test]
fn pops_as_registers_fail_without_constant_space() {
    let full = error(TranslationErrorInner::TooManyFuncLocalConstValues);
    let mut stack = stack_with_locals(0);
    fill_consts(&mut stack);
    stack.push_const(-1i64);
    assert_eq!(stack.pop_as_register(), full);
    assert_eq!(stack.height(), 0);
    stack.push_const(-1i64);
    stack.push_const(-2i64);
    assert_eq!(
        stack.pop2_as_registers(),
        error(TranslationErrorInner::TooManyFuncLocalConstValues)
    );
    // Only the provider that failed is gone.
    assert_eq!(stack.height(), 1);
    stack.push_const(0i64);
    stack.push_const(1i64);
    assert_eq!(
        stack.pop3_as_registers(),
        error(TranslationErrorInner::TooManyFuncLocalConstValues)
    );
    assert_eq!(stack.height(), 0);
}

#[test]
fn trunc_frees_registers() {
    let mut stack = stack_with_locals(1);
    stack.push_dynamic().unwrap();
    stack.push_const(3i32);
    stack.push_dynamic().unwrap();
    stack.push_local(0).unwrap();
    stack.trunc(4);
    assert_eq!(stack.height(), 4);
    stack.trunc(1);
    assert_eq!(stack.height(), 1);
    assert_eq!(stack.push_dynamic(), Ok(reg(2)));
    stack.trunc(0);
    assert_eq!(stack.push_dynamic(), Ok(reg(1)));
}

#[test]
fn pop_n_gives_the_top_last() {
    let mut stack = stack_with_locals(2);
    stack.push_local(1).unwrap();
    stack.push_const(5i32);
    stack.push_dynamic().unwrap();
    let mut buffer = vec![register(100)];
    stack.peek_n(2, &mut buffer);
    assert_eq!(buffer, vec![constant(5i32), register(2)]);
    assert_eq!(stack.height(), 3);
    stack.pop_n(3, &mut buffer);
    assert_eq!(buffer, vec![register(1), constant(5i32), register(2)]);
    assert_eq!(stack.height(), 0);
    stack.pop_n(0, &mut buffer);
    assert_eq!(buffer, vec![]);
}

#[test]
fn push_n_undoes_pop_n() {
    let mut stack = stack_with_locals(2);
    stack.push_local(1).unwrap();
    stack.push_const(5i32);
    stack.push_dynamic().unwrap();
    stack.push_dynamic().unwrap();
    let registers = stack.len_registers();
    let mut popped = Vec::new();
    stack.pop_n(4, &mut popped);
    assert_eq!(stack.push_n(&popped), Ok(()));
    let mut again = Vec::new();
    stack.peek_n(4, &mut again);
    assert_eq!(again, popped);
    assert_eq!(stack.len_registers(), registers);
    // The next dynamic register is the one behind those on the stack.
    assert_eq!(stack.push_dynamic(), Ok(reg(4)));
}

#[test]
fn push_register_tells_the_spaces_apart() {
    let mut stack = stack_with_locals(1);
    stack.push_dynamic().unwrap();
    stack.pop();
    // A register in dynamic space counts as allocated.
    assert_eq!(stack.push_register(reg(1)), Ok(()));
    assert_eq!(stack.push_dynamic(), Ok(reg(2)));
    // Locals and constants do not.
    assert_eq!(stack.push_register(reg(0)), Ok(()));
    assert_eq!(stack.push_register(reg(-1)), Ok(()));
    assert_eq!(stack.push_dynamic(), Ok(reg(3)));
    assert_eq!(stack.height(), 5);
    assert_eq!(stack.push_provider(constant(F64 { bits: 1 })), Ok(()));
    assert_eq!(stack.pop(), constant(F64 { bits: 1 }));
    assert_eq!(stack.push_provider(register(3)), Ok(()));
    assert_eq!(stack.pop(), register(3));
}

#[test]
fn push_n_stops_at_the_first_failure() {
    let mut stack = stack_with_locals(0);
    stack.push_dynamic_n(32766).unwrap();
    let providers = [constant(1i32), register(0), register(1), constant(2i32)];
    assert_eq!(
        stack.push_n(&providers),
        error(TranslationErrorInner::AllocatedTooManyRegisters)
    );
    assert_eq!(stack.height(), 32768);
    assert_eq!(stack.pop(), register(0));
    assert_eq!(stack.pop(), constant(1i32));
    assert_eq!(
        stack.push_n(&providers),
        error(TranslationErrorInner::AllocatedTooManyRegisters)
    );
}

#[test]
fn dynamic_spans_are_contiguous() {
    let mut stack = stack_with_locals(3);
    let span = stack.push_dynamic_n(4).unwrap();
    assert_eq!(span.head(), reg(3));
    let mut iter = span.iter(4);
    assert_eq!(iter.len(), 4);
    assert_eq!(iter.next(), Some(reg(3)));
    assert_eq!(iter.next(), Some(reg(4)));
    assert_eq!(iter.span().head(), reg(5));
    assert_eq!(iter.next(), Some(reg(5)));
    assert_eq!(iter.next(), Some(reg(6)));
    assert_eq!(iter.next(), None);
    assert_eq!(stack.height(), 4);
    assert_eq!(stack.pop(), register(6));
    assert_eq!(
        stack.push_dynamic_n(usize::MAX),
        error(TranslationErrorInner::AllocatedTooManyRegisters)
    );
    assert_eq!(stack.height(), 3);
}

#[test]
fn peek_dynamic_n_pushes_nothing() {
    let mut stack = stack_with_locals(1);
    let peeked = stack.peek_dynamic_n(3).unwrap();
    assert_eq!(stack.height(), 0);
    assert_eq!(stack.len_registers(), 4);
    assert_eq!(stack.push_dynamic_n(3), Ok(peeked));
    assert_eq!(stack.len_registers(), 4);
    assert_eq!(
        stack.peek_dynamic_n(32767),
        error(TranslationErrorInner::AllocatedTooManyRegisters)
    );
}

#[test]
fn adjust_for_call_swaps_parameters_for_results() {
    let func_type = FuncType::new(
        vec![ValueType::I32, ValueType::I64],
        vec![ValueType::F32, ValueType::F64, ValueType::FuncRef],
    );
    let mut stack = stack_with_locals(1);
    stack.push_dynamic().unwrap();
    stack.push_const(8i32);
    stack.push_dynamic().unwrap();
    let mut buffer = vec![register(77)];
    let span = stack.adjust_for_call(&func_type, &mut buffer).unwrap();
    assert_eq!(buffer, vec![constant(8i32), register(2)]);
    assert_eq!(span.head(), reg(2));
    assert_eq!(stack.height(), 4);
    assert_eq!(stack.peek(), register(4));
}

#[test]
fn adjust_for_call_needs_its_parameters() {
    let func_type = FuncType::new(vec![ValueType::I32, ValueType::ExternRef], vec![]);
    let mut stack = stack_with_locals(1);
    stack.push_const(8i32);
    let mut buffer = vec![register(77)];
    assert_eq!(
        stack.adjust_for_call(&func_type, &mut buffer),
        error(TranslationErrorInner::TooFewProviders)
    );
    assert_eq!(buffer, vec![]);
    assert_eq!(stack.height(), 1);
}

#[test]
fn adjust_for_call_needs_registers_for_results() {
    let func_type = FuncType::new(vec![ValueType::I32], vec![ValueType::I32]);
    let mut stack = stack_with_locals(32767);
    stack.push_const(8i32);
    let mut buffer = Vec::new();
    assert_eq!(
        stack.adjust_for_call(&func_type, &mut buffer),
        error(TranslationErrorInner::AllocatedTooManyRegisters)
    );
    assert_eq!(buffer, vec![constant(8i32)]);
    assert_eq!(stack.height(), 0);
}

#[test]
fn pop_n_as_registers_allocates_the_lowest_first() {
    let mut stack = stack_with_locals(1);
    stack.push_const(1i64);
    stack.push_local(0).unwrap();
    stack.push_const(2i64);
    stack.push_const(1i64);
    let mut providers = Vec::new();
    let mut registers = vec![reg(50)];
    assert_eq!(
        stack.pop_n_as_registers(4, &mut providers, &mut registers),
        Ok(())
    );
    assert_eq!(registers, vec![reg(-1), reg(0), reg(-2), reg(-1)]);
    assert_eq!(
        providers,
        vec![constant(1i64), register(0), constant(2i64), constant(1i64)]
    );
    assert_eq!(stack.height(), 0);
    assert_eq!(consts_of(&stack), vec![2, 1]);
}

#[test]
fn pop_n_as_registers_fails() {
    let mut stack = stack_with_locals(1);
    stack.push_const(1i64);
    let mut providers = vec![register(1)];
    let mut registers = vec![reg(1)];
    assert_eq!(
        stack.pop_n_as_registers(2, &mut providers, &mut registers),
        error(TranslationErrorInner::TooFewProviders)
    );
    assert_eq!(providers, vec![]);
    assert_eq!(registers, vec![]);
    assert_eq!(stack.height(), 1);
    fill_consts(&mut stack);
    stack.push_const(-1i64);
    stack.push_const(2i64);
    assert_eq!(
        stack.pop_n_as_registers(3, &mut providers, &mut registers),
        error(TranslationErrorInner::TooManyFuncLocalConstValues)
    );
    assert_eq!(registers, vec![reg(-2)]);
    assert_eq!(providers.len(), 3);
    assert_eq!(stack.height(), 0);
}

#[test]
fn peek_n_as_registers_keeps_the_providers() {
    let mut stack = stack_with_locals(1);
    stack.push_const(F32 { bits: 3 });
    stack.push_local(0).unwrap();
    let mut registers = Vec::new();
    assert_eq!(stack.peek_n_as_registers(2, &mut registers), Ok(()));
    assert_eq!(registers, vec![reg(-1), reg(0)]);
    assert_eq!(stack.height(), 2);
    assert_eq!(stack.pop(), register(0));
    assert_eq!(stack.pop(), constant(F32 { bits: 3 }));
    fill_rest(&mut stack);
    stack.push_local(0).unwrap();
    stack.push_const(-9i64);
    assert_eq!(
        stack.peek_n_as_registers(2, &mut registers),
        error(TranslationErrorInner::TooManyFuncLocalConstValues)
    );
    assert_eq!(registers, vec![reg(0)]);
    assert_eq!(stack.height(), 2);
}

/// Fills what is left of the space of function local constant values.
fn fill_rest(stack: &mut ValueStack) {
    let mut value = 0i64;
    while stack.alloc_const(value).is_ok() {
        value += 1;
    }
}

#[test]
fn reset_makes_a_new_stack() {
    let mut stack = stack_with_locals(4);
    stack.push_dynamic().unwrap();
    stack.push_const(1i32);
    stack.alloc_const(1i32).unwrap();
    stack.reset();
    assert_eq!(stack.height(), 0);
    assert_eq!(stack.len_registers(), 0);
    assert_eq!(consts_of(&stack), Vec::<u64>::new());
    assert_eq!(stack.register_locals(1), Ok(()));
    stack.finish_register_locals();
    assert_eq!(stack.push_dynamic(), Ok(reg(1)));
}

#[test]
fn storage_is_not_used() {
    let mut stack = stack_with_locals(1);
    let dynamic = stack.push_dynamic().unwrap();
    let mut encoder = InstrEncoder::default();
    stack.register_user(dynamic, Instr::from_usize(0));
    stack.register_user(reg(i16::MAX), Instr::from_usize(0));
    stack.defrag(&mut encoder);
    assert_eq!(encoder.drain_instrs(), vec![]);
    assert_eq!(stack.height(), 1);
    assert_eq!(stack.len_registers(), 2);
}

#[test]
fn pop_n_undoes_push_dynamic_n() {
    let mut stack = stack_with_locals(2);
    stack.push_const(1i32);
    stack.push_dynamic_n(3).unwrap();
    let mut popped = Vec::new();
    stack.pop_n(3, &mut popped);
    assert_eq!(popped, vec![register(2), register(3), register(4)]);
    assert_eq!(stack.height(), 1);
    assert_eq!(stack.len_registers(), 5);
    assert_eq!(stack.push_dynamic(), Ok(reg(2)));
}

#[test]
fn register_that_is_not_allocated_yet_gets_another_tag() {
    let mut stack = stack_with_locals(1);
    stack.push_register(reg(1)).unwrap();
    stack.peek_dynamic_n(1).unwrap();
    let popped = stack.pop();
    assert_eq!(popped, register(1));
    // The register is in dynamic space now, so that it counts as allocated.
    assert_eq!(stack.push_provider(popped), Ok(()));
    assert_eq!(stack.push_dynamic(), Ok(reg(2)));
}

#[test]
fn pop_n_undoes_push_n() {
    let mut stack = stack_with_locals(2);
    stack.push_const(9i64);
    stack.push_dynamic_n(3).unwrap();
    stack.trunc(1);
    // Registers of all spaces, in no particular order.
    let providers = [register(4), constant(5i32), register(1), register(2), register(100)];
    assert_eq!(stack.push_n(&providers), Ok(()));
    assert_eq!(stack.height(), 6);
    let mut popped = Vec::new();
    stack.pop_n(5, &mut popped);
    assert_eq!(popped, providers);
    assert_eq!(stack.height(), 1);
    assert_eq!(stack.peek(), constant(9i64));
    assert_eq!(stack.push_dynamic(), Ok(reg(2)));
}

#[test]
fn pop_n_undoes_push_n_that_failed() {
    let mut stack = stack_with_locals(32766);
    stack.push_dynamic().unwrap();
    let providers = [constant(5i32), register(0), register(32766), register(1)];
    assert_eq!(
        stack.push_n(&providers),
        error(TranslationErrorInner::AllocatedTooManyRegisters)
    );
    // The providers before the one that needs a register are pushed.
    assert_eq!(stack.height(), 3);
    let mut popped = Vec::new();
    stack.pop_n(2, &mut popped);
    assert_eq!(popped, providers[..2]);
    assert_eq!(stack.pop(), register(32766));
}

#[test]
fn pop_undoes_push_register() {
    let mut stack = stack_with_locals(2);
    stack.push_const(1i32);
    stack.push_dynamic_n(2).unwrap();
    stack.trunc(1);
    for index in [0, 3, 200] {
        assert_eq!(stack.push_register(reg(index)), Ok(()));
        assert_eq!(stack.height(), 2);
        assert_eq!(stack.peek(), register(index));
        assert_eq!(stack.pop(), register(index));
        assert_eq!(stack.height(), 1);
        assert_eq!(stack.peek(), constant(1i32));
    }
}

#[test]
fn push_provider_pushes_registers_and_constants() {
    for provider in [register(0), register(1), register(9), constant(1i64 << 40)] {
        let mut stack = stack_with_locals(1);
        stack.peek_dynamic_n(2).unwrap();
        let mut other = stack_with_locals(1);
        other.peek_dynamic_n(2).unwrap();
        assert_eq!(stack.push_provider(provider), Ok(()));
        match provider {
            Provider::Register(register) => assert_eq!(other.push_register(register), Ok(())),
            Provider::Const(value) => other.push_const(value),
        }
        assert_eq!(stack.peek(), provider);
        assert_eq!(other.peek(), provider);
        assert_eq!(stack.height(), other.height());
        assert_eq!(stack.push_dynamic(), other.push_dynamic());
        assert_eq!(consts_of(&stack), Vec::<u64>::new());
        assert_eq!(consts_of(&other), Vec::<u64>::new());
    }
}
