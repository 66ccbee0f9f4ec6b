use regmach::bytecode::branch::{BranchOffset, Instr};
use regmach::bytecode::fuel::BlockFuel;
use regmach::bytecode::immediate::{AnyConst32, F64Const32, I64Const32};
use regmach::bytecode::instruction::Instruction;
use regmach::bytecode::provider::{Provider, TypedProvider};
use regmach::bytecode::register::{Register, RegisterSpanIter};
use regmach::encoder::{InstrEncoder, InstrSequence};
use regmach::error::{TranslationError, TranslationErrorInner};
use regmach::func_type::FuncType;
use regmach::labels::{LabelError, LabelRegistry};
use regmach::ordering::{order_copies, RegisterCopy};
use regmach::stack::ValueStack;
use regmach::value::{TypedValue, UntypedValue, ValueType, F32, F64};

fn reg(index: i16) -> Register {
    Register::from_i16(index)
}

fn register(index: i16) -> TypedProvider {
    Provider::Register(reg(index))
}

fn constant<T: Into<TypedValue>>(value: T) -> TypedProvider {
    Provider::Const(value.into())
}

fn stack_with_locals(locals: u32) -> ValueStack {
    let mut stack = ValueStack::default();
    stack.register_locals(locals).unwrap();
    stack.finish_register_locals();
    stack
}

fn consts_of(stack: &ValueStack) -> Vec<u64> {
    let mut iter = stack.func_local_consts();
    let mut consts = Vec::new();
    while let Some(value) = iter.next() {
        consts.push(value.to_bits());
    }
    consts
}

/// Executes copy instructions on a frame of registers `-8..24`.
fn execute(stack: &ValueStack, instrs: &[Instruction], frame: &mut Vec<u64>) {
    let at = |register: Register| (register.to_i16() + 8) as usize;
    let consts = consts_of(stack);
    for (i, value) in consts.iter().rev().enumerate() {
        frame[7 - i] = *value;
    }
    for instr in instrs {
        match *instr {
            Instruction::Copy { result, value } => frame[at(result)] = frame[at(value)],
            Instruction::CopyImm32 { result, value } => frame[at(result)] = value.bits as u64,
            Instruction::CopyI64Imm32 { result, value } => {
                frame[at(result)] = value.value as i64 as u64
            }
            Instruction::CopyF64Imm32 { result, value } => {
                frame[at(result)] = (f32::from_bits(value.bits) as f64).to_bits()
            }
            _ => panic!("not a copy"),
        }
    }
}

/// A frame of registers `-8..24` with a value of its own in each.
fn fresh_frame() -> Vec<u64> {
    (0..32).map(|i| 1000 + i).collect()
}

#[test]
fn copy_of_a_register() {
    let mut stack = stack_with_locals(4);
    let mut encoder = InstrEncoder::default();
    assert_eq!(encoder.encode_copy(&mut stack, reg(2), register(2)), Ok(None));
    assert_eq!(
        encoder.encode_copy(&mut stack, reg(2), register(1)),
        Ok(Some(Instr::from_usize(0)))
    );
    assert_eq!(
        encoder.drain_instrs(),
        vec![Instruction::Copy { result: reg(2), value: reg(1) }]
    );
    assert_eq!(encoder.drain_instrs(), vec![]);
}

#[test]
fn copies_of_constants_are_compact() {
    let mut stack = stack_with_locals(4);
    let mut encoder = InstrEncoder::default();
    let result = reg(0);
    let values = [
        constant(-1i32),
        constant(F32 { bits: 0x3fc0_0000 }),
        constant(-5i64),
        constant(1i64 << 40),
        constant(F64 { bits: 1.5f64.to_bits() }),
        constant(F64 { bits: 0.1f64.to_bits() }),
        Provider::Const(TypedValue::new(ValueType::FuncRef, UntypedValue { bits: 7 })),
        Provider::Const(TypedValue::new(ValueType::ExternRef, UntypedValue { bits: 7 })),
    ];
    for (i, value) in values.iter().enumerate() {
        assert_eq!(
            encoder.encode_copy(&mut stack, result, *value),
            Ok(Some(Instr::from_usize(i)))
        );
    }
    assert_eq!(
        encoder.drain_instrs(),
        vec![
            Instruction::CopyImm32 { result, value: AnyConst32 { bits: 0xffff_ffff } },
            Instruction::CopyImm32 { result, value: AnyConst32 { bits: 0x3fc0_0000 } },
            Instruction::CopyI64Imm32 { result, value: I64Const32 { value: -5 } },
            Instruction::Copy { result, value: reg(-1) },
            Instruction::CopyF64Imm32 { result, value: F64Const32 { bits: 1.5f32.to_bits() } },
            Instruction::Copy { result, value: reg(-2) },
            Instruction::Copy { result, value: reg(-3) },
            Instruction::Copy { result, value: reg(-3) },
        ]
    );
    assert_eq!(consts_of(&stack), vec![7, 0.1f64.to_bits(), 1 << 40]);
}

#[test]
fn copies_fail_without_constant_space() {
    let mut stack = stack_with_locals(1);
    for value in 0..i16::MAX as i64 {
        stack.alloc_const(value).unwrap();
    }
    let mut encoder = InstrEncoder::default();
    let full = TranslationError::new(TranslationErrorInner::TooManyFuncLocalConstValues);
    assert_eq!(
        encoder.encode_copy(&mut stack, reg(0), constant(1i64 << 40)),
        Err(full)
    );
    assert_eq!(
        encoder.encode_call_params(&mut stack, &[constant(4i32), constant(1i64 << 40)]),
        Err(full)
    );
    // The copy before the one that failed is there.
    assert_eq!(
        encoder.drain_instrs(),
        vec![Instruction::CopyImm32 { result: reg(1), value: AnyConst32 { bits: 4 } }]
    );
}

#[test]
fn contiguous_call_params_stay() {
    let mut stack = stack_with_locals(4);
    let mut encoder = InstrEncoder::default();
    let span = encoder
        .encode_call_params(&mut stack, &[register(1), register(2), register(3)])
        .unwrap();
    assert_eq!(
        span,
        RegisterSpanIter { next: reg(1), last: reg(4) }
    );
    assert_eq!(encoder.drain_instrs(), vec![]);
    assert_eq!(stack.height(), 0);
    assert_eq!(stack.len_registers(), 4);
}

#[test]
fn call_params_are_copied() {
    let mut stack = stack_with_locals(4);
    let mut encoder = InstrEncoder::default();
    let params = [register(3), constant(1i64 << 40), register(0), constant(0.1f32.to_bits() as i32)];
    let span = encoder.encode_call_params(&mut stack, &params).unwrap();
    assert_eq!(span, RegisterSpanIter { next: reg(4), last: reg(8) });
    assert_eq!(stack.height(), 0);
    assert_eq!(stack.len_registers(), 9);
    let mut frame = fresh_frame();
    execute(&stack, &encoder.drain_instrs(), &mut frame);
    assert_eq!(
        frame[12..16],
        [1011, 1 << 40, 1008, 0.1f32.to_bits() as u64]
    );
    assert_eq!(frame[8..12], [1008, 1009, 1010, 1011]);
    assert_eq!(frame[16..], fresh_frame()[16..]);
}

#[test]
fn no_call_params_make_an_empty_span() {
    let mut stack = stack_with_locals(4);
    let mut encoder = InstrEncoder::default();
    let span = encoder.encode_call_params(&mut stack, &[]).unwrap();
    assert_eq!(span, RegisterSpanIter { next: reg(4), last: reg(4) });
    assert_eq!(span.len(), 0);
    assert_eq!(encoder.drain_instrs(), vec![]);
}

/// A copy of a register.
fn copy(result: i16, value: i16) -> Instruction {
    Instruction::Copy { result: reg(result), value: reg(value) }
}

/// The value that a provider stands for in a fresh frame.
fn fresh_value(provider: &TypedProvider) -> u64 {
    match provider {
        Provider::Register(register) => fresh_frame()[(register.to_i16() + 8) as usize],
        Provider::Const(value) => UntypedValue::from(*value).to_bits(),
    }
}

/// Encodes the parameters of a call, executes the copies, and checks that the
/// parameters arrive and that no register outside of the span and of the one
/// behind it has changed. Returns whether the latter has.
fn check_call_params(stack: &mut ValueStack, params: &[TypedProvider]) -> bool {
    let mut encoder = InstrEncoder::default();
    let span = encoder.encode_call_params(stack, params).unwrap();
    assert_eq!(span.len(), params.len());
    let mut frame = fresh_frame();
    execute(stack, &encoder.drain_instrs(), &mut frame);
    let first = (span.next.to_i16() + 8) as usize;
    for (i, param) in params.iter().enumerate() {
        assert_eq!(frame[first + i], fresh_value(param));
    }
    let behind = first + params.len();
    assert_eq!(frame[8..first], fresh_frame()[8..first]);
    assert_eq!(frame[behind + 1..], fresh_frame()[behind + 1..]);
    frame[behind] != fresh_frame()[behind]
}

#[test]
fn params_are_copied_before_they_are_overwritten() {
    // The register that the constant is copied to holds the other parameter.
    let mut stack = stack_with_locals(0);
    stack.push_const(5i32);
    stack.push_dynamic().unwrap();
    let mut params = Vec::new();
    stack.pop_n(2, &mut params);
    let expected = vec![
        copy(1, 0),
        Instruction::CopyImm32 { result: reg(0), value: AnyConst32 { bits: 5 } },
    ];
    let mut encoder = InstrEncoder::default();
    let span = encoder.encode_call_params(&mut stack, &params).unwrap();
    assert_eq!(span, RegisterSpanIter { next: reg(0), last: reg(2) });
    assert_eq!(encoder.drain_instrs(), expected);
    assert_eq!(stack.height(), 0);
    assert_eq!(stack.len_registers(), 2);
    let span = encoder
        .encode_conditional_branch_params(&mut stack, &params)
        .unwrap();
    assert_eq!(span, RegisterSpanIter { next: reg(0), last: reg(2) });
    assert_eq!(encoder.drain_instrs(), expected);
    assert_eq!(stack.height(), 2);
    assert_eq!(stack.len_registers(), 2);
}

#[test]
fn params_that_move_up_are_copied_from_the_last() {
    let mut stack = stack_with_locals(2);
    let params = [register(0), register(2), register(3)];
    let mut encoder = InstrEncoder::default();
    let span = encoder.encode_call_params(&mut stack, &params).unwrap();
    assert_eq!(span, RegisterSpanIter { next: reg(2), last: reg(5) });
    assert_eq!(encoder.drain_instrs(), vec![copy(4, 3), copy(3, 2), copy(2, 0)]);
    assert_eq!(stack.len_registers(), 5);
    assert!(!check_call_params(&mut stack, &params));
}

#[test]
fn params_that_move_down_are_copied_from_the_first() {
    let mut stack = stack_with_locals(2);
    let params = [register(3), register(4), register(6)];
    let mut encoder = InstrEncoder::default();
    encoder.encode_call_params(&mut stack, &params).unwrap();
    assert_eq!(encoder.drain_instrs(), vec![copy(2, 3), copy(3, 4), copy(4, 6)]);
    assert_eq!(stack.len_registers(), 5);
    assert!(!check_call_params(&mut stack, &params));
}

#[test]
fn params_in_their_place_are_not_copied() {
    let mut stack = stack_with_locals(0);
    let params = [register(0), register(0), constant(1i32)];
    let mut encoder = InstrEncoder::default();
    encoder.encode_call_params(&mut stack, &params).unwrap();
    assert_eq!(
        encoder.drain_instrs(),
        vec![
            copy(1, 0),
            Instruction::CopyImm32 { result: reg(2), value: AnyConst32 { bits: 1 } },
        ]
    );
}

#[test]
fn params_of_an_adjusted_stack_arrive() {
    let mut stack = stack_with_locals(1);
    stack.push_const(5i32);
    stack.push_dynamic().unwrap();
    let mut params = Vec::new();
    let types = FuncType::new(vec![ValueType::I32, ValueType::I32], vec![]);
    stack.adjust_for_call(&types, &mut params).unwrap();
    assert_eq!(params, vec![constant(5i32), register(1)]);
    assert!(!check_call_params(&mut stack, &params));
}

#[test]
fn params_that_change_places_need_a_spare_register() {
    let mut stack = stack_with_locals(2);
    let params = [register(3), register(2)];
    let mut encoder = InstrEncoder::default();
    let span = encoder.encode_call_params(&mut stack, &params).unwrap();
    assert_eq!(span, RegisterSpanIter { next: reg(2), last: reg(4) });
    assert_eq!(encoder.drain_instrs(), vec![copy(4, 2), copy(2, 3), copy(3, 4)]);
    // The spare register is counted, and is free again.
    assert_eq!(stack.len_registers(), 5);
    assert_eq!(stack.push_dynamic(), Ok(reg(2)));
    stack.pop();
    let span = encoder
        .encode_conditional_branch_params(&mut stack, &params)
        .unwrap();
    assert_eq!(span, RegisterSpanIter { next: reg(2), last: reg(4) });
    assert_eq!(encoder.drain_instrs(), vec![copy(4, 2), copy(2, 3), copy(3, 4)]);
    assert_eq!(stack.height(), 2);
    assert_eq!(stack.push_dynamic(), Ok(reg(4)));
}

#[test]
fn several_cycles_share_the_spare_register() {
    let mut stack = stack_with_locals(0);
    let params = [register(1), register(0), register(3), register(4), register(2), register(6)];
    let mut encoder = InstrEncoder::default();
    encoder.encode_call_params(&mut stack, &params).unwrap();
    assert_eq!(
        encoder.drain_instrs(),
        vec![
            // The register that becomes the spare one is read first.
            copy(5, 6),
            copy(6, 0),
            copy(0, 1),
            copy(1, 6),
            copy(6, 2),
            copy(2, 3),
            copy(3, 4),
            copy(4, 6),
        ]
    );
    assert!(check_call_params(&mut stack, &params));
}

#[test]
fn cycles_fail_without_a_spare_register() {
    let too_many = TranslationError::new(TranslationErrorInner::AllocatedTooManyRegisters);
    let mut stack = stack_with_locals(32765);
    let mut encoder = InstrEncoder::default();
    let swapped = [register(32766), register(32765)];
    assert_eq!(encoder.encode_call_params(&mut stack, &swapped), Err(too_many));
    assert_eq!(
        encoder.encode_conditional_branch_params(&mut stack, &swapped),
        Err(too_many)
    );
    assert_eq!(encoder.drain_instrs(), vec![]);
    // There are enough registers without a cycle.
    let mut stack = stack_with_locals(32765);
    let params = [register(0), register(32765)];
    let span = encoder.encode_call_params(&mut stack, &params).unwrap();
    assert_eq!(span, RegisterSpanIter { next: reg(32765), last: reg(32767) });
    assert_eq!(encoder.drain_instrs(), vec![copy(32766, 32765), copy(32765, 0)]);
}

#[test]
fn all_short_lists_of_params_arrive() {
    let choices = [
        register(0),
        register(1),
        register(2),
        register(3),
        register(4),
        register(5),
        constant(1i64 << 40),
    ];
    let mut cycles = 0;
    for a in choices {
        for b in choices {
            for c in choices {
                for d in choices {
                    let mut stack = stack_with_locals(1);
                    if check_call_params(&mut stack, &[a, b, c, d]) {
                        cycles += 1;
                        assert_eq!(stack.len_registers() as usize, 6 + consts_of(&stack).len());
                    }
                }
            }
        }
    }
    assert!(cycles > 0);
}

#[test]
fn ascending_params_leave_the_register_behind_them() {
    for mask in 1..64u32 {
        // The registers of the bits of the mask, with a constant before them.
        let mut params = vec![constant(7i32)];
        for index in 0..6 {
            if mask & (1 << index) != 0 {
                params.push(register(index));
            }
        }
        let mut stack = stack_with_locals(2);
        assert!(!check_call_params(&mut stack, &params));
    }
}

#[test]
fn copies_without_conflict_keep_their_order() {
    let copies = vec![
        RegisterCopy { result: reg(0), value: register(1) },
        RegisterCopy { result: reg(1), value: register(2) },
        RegisterCopy { result: reg(3), value: register(3) },
        RegisterCopy { result: reg(4), value: register(3) },
        RegisterCopy { result: reg(5), value: constant(1i32) },
    ];
    assert_eq!(order_copies(copies.clone(), reg(6)), (copies, false));
    assert_eq!(order_copies(vec![], reg(6)), (vec![], false));
}

#[test]
fn cycles_are_broken_at_their_first_copy() {
    let copies = vec![
        RegisterCopy { result: reg(0), value: register(1) },
        RegisterCopy { result: reg(1), value: register(0) },
        RegisterCopy { result: reg(2), value: register(0) },
    ];
    assert_eq!(
        order_copies(copies.clone(), reg(3)),
        (
            vec![
                copies[2],
                RegisterCopy { result: reg(3), value: register(0) },
                copies[0],
                RegisterCopy { result: reg(1), value: register(3) },
            ],
            true
        )
    );
}

#[test]
fn params_need_registers() {
    let too_many = TranslationError::new(TranslationErrorInner::AllocatedTooManyRegisters);
    let mut stack = stack_with_locals(32767);
    let mut encoder = InstrEncoder::default();
    assert_eq!(
        encoder.encode_call_params(&mut stack, &[constant(1i32)]),
        Err(too_many)
    );
    assert_eq!(
        encoder.encode_conditional_branch_params(&mut stack, &[constant(1i32)]),
        Err(too_many)
    );
    assert_eq!(encoder.drain_instrs(), vec![]);
    let mut stack = stack_with_locals(0);
    stack.push_dynamic_n(32767).unwrap();
    assert_eq!(
        encoder.encode_conditional_branch_params(&mut stack, &[register(0)]),
        Err(too_many)
    );
}

#[test]
fn branch_params_are_put_back() {
    let mut stack = stack_with_locals(2);
    stack.push_local(1).unwrap();
    stack.push_dynamic().unwrap();
    stack.push_dynamic().unwrap();
    let mut params = Vec::new();
    stack.pop_n(3, &mut params);
    let mut encoder = InstrEncoder::default();
    let span = encoder
        .encode_conditional_branch_params(&mut stack, &params)
        .unwrap();
    assert_eq!(span, RegisterSpanIter { next: reg(1), last: reg(4) });
    assert_eq!(encoder.drain_instrs(), vec![]);
    assert_eq!(stack.height(), 3);
    let mut again = Vec::new();
    stack.peek_n(3, &mut again);
    assert_eq!(again, params);
    assert_eq!(stack.push_dynamic(), Ok(reg(4)));
}

#[test]
fn branch_params_are_copied() {
    let mut stack = stack_with_locals(2);
    let mut encoder = InstrEncoder::default();
    let params = [register(1), constant(F64 { bits: 2.5f64.to_bits() })];
    let span = encoder
        .encode_conditional_branch_params(&mut stack, &params)
        .unwrap();
    assert_eq!(span, RegisterSpanIter { next: reg(2), last: reg(4) });
    assert_eq!(stack.height(), 2);
    assert_eq!(stack.peek(), register(3));
    let mut frame = fresh_frame();
    execute(&stack, &encoder.drain_instrs(), &mut frame);
    assert_eq!(frame[10..12], [1009, 2.5f64.to_bits()]);
}

#[test]
fn call_and_branch_params_agree() {
    let lists = [
        vec![],
        vec![register(0), register(1)],
        vec![register(2), register(3)],
        vec![register(3), register(2)],
        vec![register(0), register(2), constant(1i64 << 40)],
        vec![constant(F64 { bits: 0.1f64.to_bits() }), register(3), register(2)],
    ];
    for params in lists {
        let mut call_stack = stack_with_locals(2);
        call_stack.push_const(1i32);
        let mut branch_stack = stack_with_locals(2);
        branch_stack.push_const(1i32);
        let mut call = InstrEncoder::default();
        let mut branch = InstrEncoder::default();
        let call_span = call.encode_call_params(&mut call_stack, &params).unwrap();
        let branch_span = branch
            .encode_conditional_branch_params(&mut branch_stack, &params)
            .unwrap();
        assert_eq!(call_span, branch_span);
        assert_eq!(call.drain_instrs(), branch.drain_instrs());
        assert_eq!(consts_of(&call_stack), consts_of(&branch_stack));
        assert_eq!(call_stack.height(), 1);
        assert_eq!(branch_stack.height(), 1 + params.len());
        // The registers of the span are on top.
        let mut top = Vec::new();
        branch_stack.pop_n(params.len(), &mut top);
        for (i, provider) in top.iter().enumerate() {
            assert_eq!(*provider, register(branch_span.next.to_i16() + i as i16));
        }
        assert_eq!(call_stack.push_dynamic(), branch_stack.push_dynamic());
    }
}

#[test]
fn all_users_of_a_label_are_remembered() {
    let mut encoder = InstrEncoder::default();
    let label = encoder.new_label();
    for user in 0..3 {
        let offset = encoder
            .try_resolve_label_for(label, Instr::from_usize(user))
            .unwrap();
        assert_eq!(offset, BranchOffset::uninit());
        encoder.push_instr(Instruction::Branch { offset }).unwrap();
        encoder.new_label();
    }
    encoder.pin_label(label);
    assert_eq!(encoder.update_branch_offsets(), Ok(()));
    let to = |offset: i32| Instruction::Branch { offset: BranchOffset { offset } };
    assert_eq!(encoder.drain_instrs(), vec![to(3), to(2), to(1)]);
}

#[test]
fn labels_behind_are_resolved_at_once() {
    let mut encoder = InstrEncoder::default();
    let label = encoder.new_label();
    encoder.pin_label(label);
    encoder.push_instr(Instruction::copy(reg(0), reg(1))).unwrap();
    encoder.push_instr(Instruction::copy(reg(0), reg(1))).unwrap();
    let offset = encoder.try_resolve_label(label).unwrap();
    assert_eq!(offset.to_i32(), -2);
    assert_eq!(
        encoder
            .try_resolve_label_for(label, Instr::from_usize(1))
            .unwrap()
            .to_i32(),
        -1
    );
    assert_eq!(encoder.update_branch_offsets(), Ok(()));
}

#[test]
fn labels_ahead_are_resolved_later() {
    let mut encoder = InstrEncoder::default();
    let label = encoder.new_label();
    let other = encoder.new_label();
    assert!(label != other);
    let offset = encoder.try_resolve_label(label).unwrap();
    assert_eq!(offset, BranchOffset::uninit());
    encoder.push_instr(Instruction::Branch { offset }).unwrap();
    let offset = encoder.try_resolve_label(other).unwrap();
    encoder
        .push_instr(Instruction::BranchEqz { condition: reg(3), offset })
        .unwrap();
    encoder.pin_label(label);
    let offset = encoder.try_resolve_label(other).unwrap();
    encoder
        .push_instr(Instruction::BranchNez { condition: reg(4), offset })
        .unwrap();
    encoder.push_instr(Instruction::copy(reg(0), reg(1))).unwrap();
    encoder.pin_label_if_unpinned(label);
    encoder.pin_label_if_unpinned(other);
    assert_eq!(encoder.update_branch_offsets(), Ok(()));
    let to = |offset: i32| BranchOffset { offset };
    assert_eq!(
        encoder.drain_instrs(),
        vec![
            Instruction::Branch { offset: to(2) },
            Instruction::BranchEqz { condition: reg(3), offset: to(3) },
            Instruction::BranchNez { condition: reg(4), offset: to(2) },
            Instruction::copy(reg(0), reg(1)),
        ]
    );
}

#[test]
fn labels_are_pinned_once() {
    let mut registry = LabelRegistry::default();
    let label = registry.new_label();
    assert_eq!(registry.pin_label(label, Instr::from_usize(3)), Ok(()));
    assert_eq!(
        registry.pin_label(label, Instr::from_usize(4)),
        Err(LabelError::AlreadyPinned { label, pinned_to: Instr::from_usize(3) })
    );
    registry.try_pin_label(label, Instr::from_usize(5));
    assert_eq!(
        registry
            .try_resolve_label(label, Instr::from_usize(0))
            .unwrap()
            .to_i32(),
        3
    );
    assert_eq!(registry.len_users(), 0);
}

#[test]
fn branch_offsets_out_of_bounds_are_errors() {
    let mut registry = LabelRegistry::default();
    let label = registry.new_label();
    registry.try_pin_label(label, Instr::from_usize(u32::MAX as usize));
    assert_eq!(
        registry.try_resolve_label(label, Instr::from_usize(0)),
        Err(TranslationError::new(
            TranslationErrorInner::BranchOffsetOutOfBounds
        ))
    );
}

#[test]
fn fuel_is_bumped_in_place() {
    let out_of_bounds = TranslationError::new(TranslationErrorInner::BlockFuelOutOfBounds);
    let mut encoder = InstrEncoder::default();
    encoder.push_instr(Instruction::copy(reg(0), reg(1))).unwrap();
    let instr = encoder.push_consume_fuel_instr(10).unwrap();
    assert_eq!(instr, Instr::from_usize(1));
    assert_eq!(encoder.push_consume_fuel_instr(1 << 32), Err(out_of_bounds));
    assert_eq!(encoder.bump_fuel_consumption(instr, 7), Ok(()));
    assert_eq!(
        encoder.bump_fuel_consumption(instr, u32::MAX as u64),
        Err(out_of_bounds)
    );
    assert_eq!(
        encoder.drain_instrs(),
        vec![
            Instruction::copy(reg(0), reg(1)),
            Instruction::ConsumeFuel { fuel: BlockFuel { units: 17 } },
        ]
    );
}

#[test]
fn reset_makes_a_new_encoder() {
    let mut encoder = InstrEncoder::default();
    let label = encoder.new_label();
    encoder.try_resolve_label(label).unwrap();
    encoder.push_consume_fuel_instr(1).unwrap();
    encoder.reset();
    assert_eq!(encoder.new_label(), label);
    assert_eq!(encoder.update_branch_offsets(), Ok(()));
    assert_eq!(encoder.drain_instrs(), vec![]);
}

#[test]
fn sequences_count_their_instructions() {
    let mut sequence = InstrSequence::default();
    assert_eq!(sequence.next_instr(), Instr::from_usize(0));
    let instr = sequence.push(Instruction::copy(reg(0), reg(1))).unwrap();
    assert_eq!(instr, Instr::from_usize(0));
    assert_eq!(sequence.next_instr(), Instr::from_usize(1));
    *sequence.get_mut(instr) = Instruction::Branch { offset: BranchOffset { offset: 4 } };
    sequence
        .get_mut(instr)
        .update_branch_offset(BranchOffset { offset: 9 });
    assert_eq!(
        sequence.drain(),
        vec![Instruction::Branch { offset: BranchOffset { offset: 9 } }]
    );
    sequence.push(Instruction::copy(reg(0), reg(1))).unwrap();
    sequence.reset();
    assert_eq!(sequence.drain(), vec![]);
}
