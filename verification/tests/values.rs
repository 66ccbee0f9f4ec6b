use regmach::bytecode::branch::{BranchOffset, Instr};
use regmach::bytecode::fuel::BlockFuel;
use regmach::bytecode::immediate::{AnyConst32, F64Const32, I64Const32};
use regmach::bytecode::provider::{Provider, TypedProvider};
use regmach::bytecode::register::{Register, RegisterSpanIter};
use regmach::error::{TranslationError, TranslationErrorInner};
use regmach::float::narrow;
use regmach::value::{TypedValue, UntypedValue, ValueType, F32, F64};

fn of_f64(value: f64) -> F64 {
    F64 { bits: value.to_bits() }
}

#[test]
fn integers_become_typed_values() {
    let value = TypedValue::from(-1i32);
    assert_eq!(value.ty(), ValueType::I32);
    assert_eq!(UntypedValue::from(value).to_bits(), 0xffff_ffff);
    assert_eq!(UntypedValue::from(-1i32).to_bits(), 0xffff_ffff);
    assert_eq!(i32::from(value), -1);
    let value = TypedValue::from(-2i64);
    assert_eq!(value.ty(), ValueType::I64);
    assert_eq!(UntypedValue::from(value).to_bits(), u64::MAX - 1);
    assert_eq!(UntypedValue::from(-2i64).to_bits(), u64::MAX - 1);
    assert_eq!(i64::from(value), -2);
}

#[test]
fn floats_become_typed_values() {
    let value = TypedValue::from(F32 { bits: 1.5f32.to_bits() });
    assert_eq!(value.ty(), ValueType::F32);
    assert_eq!(UntypedValue::from(value).to_bits(), 0x3fc0_0000);
    assert_eq!(F32::from(value), F32 { bits: 0x3fc0_0000 });
    assert_eq!(UntypedValue::from(F32 { bits: 7 }).to_bits(), 7);
    let value = TypedValue::from(of_f64(-2.5));
    assert_eq!(value.ty(), ValueType::F64);
    assert_eq!(UntypedValue::from(value).to_bits(), (-2.5f64).to_bits());
    assert_eq!(F64::from(value), of_f64(-2.5));
    assert_eq!(UntypedValue::from(of_f64(0.1)).to_bits(), 0.1f64.to_bits());
}

#[test]
fn reading_keeps_the_low_bits() {
    let value = TypedValue::new(ValueType::I64, UntypedValue { bits: 0x1234_5678_9abc_def0 });
    assert_eq!(i32::from(value), 0x9abc_def0u32 as i32);
    assert_eq!(F32::from(value), F32 { bits: 0x9abc_def0 });
    assert_eq!(i64::from(value), 0x1234_5678_9abc_def0);
}

#[test]
fn into_untyped_drops_the_type() {
    let provider: TypedProvider = Provider::Const(TypedValue::from(-1i32));
    assert_eq!(
        provider.into_untyped(),
        Provider::Const(UntypedValue { bits: 0xffff_ffff })
    );
    let provider: TypedProvider = Provider::Register(Register::from_i16(-3));
    assert_eq!(
        provider.into_untyped(),
        Provider::Register(Register::from_i16(-3))
    );
}

#[test]
fn small_integers_fit_into_instructions() {
    assert_eq!(AnyConst32::from(-1i32).bits, u32::MAX);
    assert_eq!(AnyConst32::from(F32 { bits: 5 }).bits, 5);
    assert_eq!(
        I64Const32::from_i64(i32::MIN as i64),
        Some(I64Const32 { value: i32::MIN })
    );
    assert_eq!(
        I64Const32::from_i64(i32::MAX as i64),
        Some(I64Const32 { value: i32::MAX })
    );
    assert_eq!(I64Const32::from_i64(i32::MAX as i64 + 1), None);
    assert_eq!(I64Const32::from_i64(i32::MIN as i64 - 1), None);
}

#[test]
fn floats_that_fit_into_instructions() {
    let fits = [
        0.0,
        -0.0,
        1.0,
        -1.5,
        16777216.0,
        f32::MAX as f64,
        f32::MIN_POSITIVE as f64,
        f32::from_bits(1) as f64,
        f32::from_bits(3) as f64,
        f32::from_bits(0x007f_ffff) as f64,
        -(f32::from_bits(0x0040_0001) as f64),
        f64::INFINITY,
        f64::NEG_INFINITY,
    ];
    for value in fits {
        assert_eq!(
            F64Const32::from_f64(of_f64(value)),
            Some(F64Const32 { bits: (value as f32).to_bits() })
        );
    }
}

#[test]
fn floats_that_do_not_fit_into_instructions() {
    let too_wide = [
        0.1,
        16777217.0,
        f64::MAX,
        f64::MIN_POSITIVE,
        f64::from_bits(1),
        f32::MAX as f64 * 2.0,
        f32::from_bits(1) as f64 / 2.0,
        f32::from_bits(1) as f64 * 1.5,
        f32::MIN_POSITIVE as f64 * (1.0 + f64::EPSILON),
    ];
    for value in too_wide {
        assert_eq!(F64Const32::from_f64(of_f64(value)), None);
    }
}

#[test]
fn only_quiet_nans_fit_into_instructions() {
    assert_eq!(narrow(0x7ff8_0000_0000_0000), Some(0x7fc0_0000));
    assert_eq!(narrow(0xfff8_0000_2000_0000), Some(0xffc0_0001));
    assert_eq!(narrow(0x7ff8_0000_0000_0001), None);
    assert_eq!(narrow(0x7ff4_0000_0000_0000), None);
}

#[test]
fn narrowing_agrees_with_the_conversions_of_the_machine() {
    let mut state = 0x9e37_79b9_7f4a_7c15u64;
    for round in 0..200_000 {
        state ^= state << 13;
        state ^= state >> 7;
        state ^= state << 17;
        let value = match round % 3 {
            0 => f64::from_bits(state),
            1 => f32::from_bits(state as u32) as f64,
            _ => f64::from_bits((state & !0x1fff_ffff) % 0x47ff_ffff_ffff_ffff),
        };
        if value.is_nan() {
            continue;
        }
        let demoted = value as f32;
        let expected = if (demoted as f64).to_bits() == value.to_bits() {
            Some(demoted.to_bits())
        } else {
            None
        };
        assert_eq!(narrow(value.to_bits()), expected);
    }
}

#[test]
fn fuel_is_bounded() {
    let out_of_bounds = TranslationError::new(TranslationErrorInner::BlockFuelOutOfBounds);
    assert_eq!(BlockFuel::from_u64(1 << 32), Err(out_of_bounds));
    let mut fuel = BlockFuel::from_u64(10).unwrap();
    assert_eq!(fuel.bump_by(5), Ok(()));
    assert_eq!(fuel.bump_by(u64::MAX), Err(out_of_bounds));
    assert_eq!(fuel.bump_by(u32::MAX as u64 - 14), Err(out_of_bounds));
    assert_eq!(fuel, BlockFuel { units: 15 });
    assert_eq!(fuel.bump_by(u32::MAX as u64 - 15), Ok(()));
    assert_eq!(fuel, BlockFuel { units: u32::MAX });
}

#[test]
fn branch_offsets_are_bounded() {
    let at = Instr::from_usize;
    assert_eq!(
        BranchOffset::from_src_to_dst(at(3), at(10)).unwrap().to_i32(),
        7
    );
    assert_eq!(
        BranchOffset::from_src_to_dst(at(10), at(3)).unwrap().to_i32(),
        -7
    );
    assert_eq!(
        BranchOffset::from_src_to_dst(at(0), at(1 << 31)),
        Err(TranslationError::new(
            TranslationErrorInner::BranchOffsetOutOfBounds
        ))
    );
    assert_eq!(
        BranchOffset::from_src_to_dst(at(1 << 31), at(0)).unwrap().to_i32(),
        i32::MIN
    );
}

#[test]
fn contiguous_registers_make_a_span() {
    let reg = |index: i16| -> TypedProvider { Provider::Register(Register::from_i16(index)) };
    let span = RegisterSpanIter::from_providers(&[reg(3), reg(4), reg(5)]).unwrap();
    assert_eq!(span.len(), 3);
    assert_eq!(span.span().head(), Register::from_i16(3));
    let single = RegisterSpanIter::from_providers(&[reg(-4)]).unwrap();
    assert_eq!(single.len(), 1);
    assert_eq!(RegisterSpanIter::from_providers(&[]), None);
    assert_eq!(RegisterSpanIter::from_providers(&[reg(3), reg(5)]), None);
    assert_eq!(RegisterSpanIter::from_providers(&[reg(4), reg(3)]), None);
    assert_eq!(RegisterSpanIter::from_providers(&[reg(i16::MAX)]), None);
    assert_eq!(
        RegisterSpanIter::from_providers(&[reg(i16::MAX), reg(i16::MIN)]),
        None
    );
    assert_eq!(
        RegisterSpanIter::from_providers(&[reg(3), Provider::Const(TypedValue::from(4i32))]),
        None
    );
}

#[test]
fn fuel_adds_up() {
    let mut twice = BlockFuel::from_u64(100).unwrap();
    twice.bump_by(20).unwrap();
    twice.bump_by(3).unwrap();
    let mut once = BlockFuel::from_u64(100).unwrap();
    once.bump_by(23).unwrap();
    assert_eq!(twice, once);
    assert_eq!(once, BlockFuel { units: 123 });
}
