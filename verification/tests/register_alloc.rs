use regmach::bytecode::branch::Instr;
use regmach::bytecode::immediate::AnyConst32;
use regmach::bytecode::instruction::Instruction;
use regmach::bytecode::provider::Provider;
use regmach::bytecode::register::Register;
use regmach::encoder::InstrEncoder;
use regmach::error::{TranslationError, TranslationErrorInner};
use regmach::stack::provider::TaggedProvider;
use regmach::stack::register_alloc::{DefragRegister, RegisterAlloc};

fn reg(index: i16) -> Register {
    Register::from_i16(index)
}

fn alloc_with_locals(locals: u32) -> RegisterAlloc {
    let mut alloc = RegisterAlloc::default();
    alloc.register_locals(locals).unwrap();
    alloc.finish_register_locals();
    alloc
}

/// Records the calls that it gets.
#[derive(Default)]
struct Recorder {
    calls: Vec<(usize, i16, i16)>,
}

impl DefragRegister for Recorder {
    type State = ();

    fn defrag_state(&self) {}

    fn knows_user(_: (), _: Instr) -> bool {
        true
    }

    fn defragged(_: (), _: Instr, _: Register, _: Register) {}

    fn defrag_register(&mut self, user: Instr, reg: Register, new_reg: Register) {
        self.calls
            .push((user.into_usize(), reg.to_i16(), new_reg.to_i16()));
    }
}

#[test]
fn storage_grows_downwards() {
    let mut alloc = alloc_with_locals(2);
    assert_eq!(alloc.push_storage(), Ok(reg(i16::MAX)));
    assert_eq!(alloc.push_storage(), Ok(reg(i16::MAX - 1)));
    assert_eq!(alloc.push_dynamic(), Ok(reg(2)));
    assert_eq!(alloc.len_registers(), 5);
    assert!(alloc.is_storage(reg(i16::MAX)));
    assert!(alloc.is_storage(reg(i16::MAX - 1)));
    assert!(!alloc.is_storage(reg(i16::MAX - 2)));
    assert!(alloc.is_dynamic(reg(2)));
    assert!(!alloc.is_dynamic(reg(1)));
    assert!(!alloc.is_dynamic(reg(3)));
    assert_eq!(
        alloc.pop_provider(TaggedProvider::Storage(reg(i16::MAX - 1))),
        Provider::Register(reg(i16::MAX - 1))
    );
    assert_eq!(alloc.push_storage(), Ok(reg(i16::MAX - 1)));
    assert_eq!(alloc.len_registers(), 5);
}

#[test]
fn spaces_do_not_meet() {
    let too_many = TranslationError::new(TranslationErrorInner::AllocatedTooManyRegisters);
    let mut alloc = alloc_with_locals(32765);
    assert_eq!(alloc.push_storage(), Ok(reg(i16::MAX)));
    assert_eq!(alloc.push_dynamic(), Ok(reg(32765)));
    assert_eq!(alloc.push_storage(), Err(too_many));
    assert_eq!(alloc.push_dynamic(), Err(too_many));
    assert_eq!(alloc.len_registers(), 32767);
}

#[test]
fn defrag_closes_the_gap() {
    let mut alloc = alloc_with_locals(1);
    alloc.push_dynamic_n(2).unwrap();
    let first = alloc.push_storage().unwrap();
    let second = alloc.push_storage().unwrap();
    alloc.register_user(first, Instr::from_usize(4));
    alloc.register_user(reg(2), Instr::from_usize(5));
    alloc.register_user(second, Instr::from_usize(6));
    alloc.register_user(first, Instr::from_usize(7));
    let mut recorder = Recorder::default();
    alloc.defrag(&mut recorder);
    assert_eq!(
        recorder.calls,
        vec![(4, i16::MAX, 4), (6, i16::MAX - 1, 3), (7, i16::MAX, 4)]
    );
    assert_eq!(alloc.len_registers(), 5);
}

#[test]
fn encoder_replaces_registers() {
    let mut encoder = InstrEncoder::default();
    encoder
        .push_instr(Instruction::copy(reg(9), reg(i16::MAX)))
        .unwrap();
    encoder
        .push_instr(Instruction::copy_imm32(reg(i16::MAX), AnyConst32 { bits: 1 }))
        .unwrap();
    encoder.defrag_register(Instr::from_usize(0), reg(i16::MAX), reg(3));
    encoder.defrag_register(Instr::from_usize(1), reg(i16::MAX), reg(3));
    encoder.defrag_register(Instr::from_usize(1), reg(8), reg(4));
    assert_eq!(
        encoder.drain_instrs(),
        vec![
            Instruction::copy(reg(9), reg(3)),
            Instruction::copy_imm32(reg(3), AnyConst32 { bits: 1 }),
        ]
    );
}
