//! The encoder of instructions.
use crate::bytecode::branch::{BranchOffset, Instr};
use crate::bytecode::fuel::BlockFuel;
use crate::bytecode::immediate::{AnyConst32, F64Const32, I64Const32};
use crate::bytecode::instruction::Instruction;
use crate::bytecode::provider::{Provider, TypedProvider};
use crate::bytecode::register::{is_contiguous, Register, RegisterSpanIter};
use crate::copies::{
    copy_from_pool, copy_of_const, copy_params, encode_branch_params, encode_call_params,
    encode_copies, encode_copy, lemma_encode_copies_stops,
};
use crate::error::{TranslationError, TranslationErrorInner};
use crate::labels::{
    after_label_steps, lemma_unpinned_label_is_deferred, LabelRef, LabelRegistry,
    LabelRegistryView, LabelStep, LabelUser,
};
use crate::ordering::{copies_of_params, order_copies, RegisterCopy};
use crate::stack::register_alloc::DefragRegister;
use crate::stack::ValueStack;
use crate::value::{F32, F64, TypedValue, UntypedValue, ValueType};
use vstd::prelude::*;

verus! {

/// The error of an exhausted instruction sequence.
pub open spec fn too_many_instructions() -> TranslationError {
    TranslationError::of(TranslationErrorInner::TooManyInstructions)
}

/// Whether the next instruction of the sequence can be referred to.
pub open spec fn has_next_instr(instrs: Seq<Instruction>) -> bool {
    instrs.len() <= u32::MAX
}

/// The reference to the next instruction of the sequence.
pub open spec fn next_instr(instrs: Seq<Instruction>) -> Instr
    recommends
        has_next_instr(instrs),
{
    Instr { index: instrs.len() as u32 }
}

/// Pushes an instruction to a sequence.
pub open spec fn push_instr(instrs: Seq<Instruction>, instruction: Instruction) -> (
    Seq<Instruction>,
    Result<Instr, TranslationError>,
) {
    if has_next_instr(instrs) {
        (instrs.push(instruction), Ok(next_instr(instrs)))
    } else {
        (instrs, Err(too_many_instructions()))
    }
}

/// The sequence of encoded instructions.
#[derive(Debug)]
pub struct InstrSequence {
    /// The instructions.
    instrs: Vec<Instruction>,
}

impl View for InstrSequence {
    type V = Seq<Instruction>;

    closed spec fn view(&self) -> Seq<Instruction> {
        self.instrs@
    }
}

impl Default for InstrSequence {
    fn default() -> (sequence: Self)
        ensures
            sequence@ == Seq::<Instruction>::empty(),
    {
        InstrSequence { instrs: Vec::new() }
    }
}

impl InstrSequence {
    /// Resets the sequence.
    pub fn reset(&mut self)
        ensures
            final(self)@ == Seq::<Instruction>::empty(),
    {
        self.instrs.clear();
    }

    /// Returns the reference to the next instruction.
    pub fn next_instr(&self) -> (instr: Instr)
        requires
            has_next_instr(self@),
        ensures
            instr == next_instr(self@),
    {
        Instr::from_usize(self.instrs.len())
    }

    /// Pushes an instruction and returns the reference to it.
    ///
    /// # Errors
    ///
    /// If there are too many instructions in the sequence. Nothing changes then.
    pub fn push(&mut self, instruction: Instruction) -> (result: Result<Instr, TranslationError>)
        ensures
            final(self)@ == push_instr(old(self)@, instruction).0,
            result == push_instr(old(self)@, instruction).1,
    {
        if self.instrs.len() > u32::MAX as usize {
            return Err(TranslationError::new(TranslationErrorInner::TooManyInstructions));
        }
        let instr = self.next_instr();
        self.instrs.push(instruction);
        Ok(instr)
    }

    /// Returns the instruction behind the reference.
    pub fn get_mut(&mut self, instr: Instr) -> (instruction: &mut Instruction)
        requires
            instr.index < old(self)@.len(),
        ensures
            *instruction == old(self)@[instr.index as int],
            final(self)@ == old(self)@.update(instr.index as int, *final(instruction)),
    {
        &mut self.instrs[instr.into_usize()]
    }

    /// Returns the instructions and leaves the sequence empty.
    pub fn drain(&mut self) -> (instrs: Vec<Instruction>)
        ensures
            instrs@ == old(self)@,
            final(self)@ == Seq::<Instruction>::empty(),
    {
        let mut instrs: Vec<Instruction> = Vec::new();
        instrs.append(&mut self.instrs);
        assert(instrs@ =~= old(self)@);
        instrs
    }
}

/// What an encoder has encoded.
#[verifier::ext_equal]
pub struct InstrEncoderView {
    /// The instructions.
    pub instrs: Seq<Instruction>,
    /// The labels.
    pub labels: LabelRegistryView,
}

impl InstrEncoderView {
    /// The state of a new encoder.
    pub open spec fn initial() -> Self {
        InstrEncoderView { instrs: Seq::empty(), labels: LabelRegistryView::initial() }
    }

    /// The encoder with other instructions.
    pub open spec fn with_instrs(self, instrs: Seq<Instruction>) -> Self {
        InstrEncoderView { instrs, ..self }
    }

    /// The encoder with other labels.
    pub open spec fn with_labels(self, labels: LabelRegistryView) -> Self {
        InstrEncoderView { labels, ..self }
    }

    /// The encoder with another instruction in the place of `instr`.
    pub open spec fn with_instr(self, instr: Instr, instruction: Instruction) -> Self {
        self.with_instrs(self.instrs.update(instr.index as int, instruction))
    }

    /// Whether the branch offsets of the first `n` label users are in bounds.
    pub open spec fn offsets_in_bounds(self, n: int) -> bool {
        forall|i: int| 0 <= i < n ==> (#[trigger] self.labels.user_offset(i)) is Ok
    }

    /// Whether the first `n` label users are instructions of the sequence.
    pub open spec fn users_known(self, n: int) -> bool {
        forall|i: int|
            0 <= i < n ==> (#[trigger] self.labels.users[i]).user.index < self.instrs.len()
    }

    /// The instructions after the branch offsets of the first `n` label users were
    /// updated.
    pub open spec fn updated_branches(self, n: nat) -> Seq<Instruction>
        decreases n,
    {
        if n == 0 {
            self.instrs
        } else {
            let before = self.updated_branches((n - 1) as nat);
            let user = self.labels.users[n - 1].user.index as int;
            let offset = self.labels.user_offset(n - 1)->Ok_0;
            before.update(user, before[user].with_branch_offset(offset))
        }
    }

    /// Whether the branch offsets can be updated: the label of each user that is
    /// reached is pinned, and the user is a branch instruction. The first user
    /// whose offset is out of bounds is the last one that is reached.
    pub open spec fn can_update_branches(self) -> bool {
        forall|n: int|
            0 <= n < self.labels.users.len() && self.offsets_in_bounds(n) ==> {
                let label_user = #[trigger] self.labels.users[n];
                &&& self.labels.is_pinned(label_user.label)
                &&& label_user.user.index < self.instrs.len()
                &&& self.labels.user_offset(n) is Ok
                    ==> self.instrs[label_user.user.index as int].is_branch()
            }
    }
}

/// Updating branch offsets keeps the number of instructions and which of them
/// are branches.
pub proof fn lemma_updated_branches(encoder: InstrEncoderView, n: nat)
    requires
        encoder.users_known(n as int),
    ensures
        encoder.updated_branches(n).len() == encoder.instrs.len(),
        forall|i: int|
            0 <= i < encoder.instrs.len() ==> (#[trigger] encoder.updated_branches(
                n,
            )[i]).is_branch() == encoder.instrs[i].is_branch(),
    decreases n,
{
    if n > 0 {
        lemma_updated_branches(encoder, (n - 1) as nat);
    }
}

/// What the first `n` updates make of the instruction that the label user `k`
/// refers to.
proof fn lemma_updated_branch(encoder: InstrEncoderView, k: int, n: nat)
    requires
        encoder.users_known(n as int),
        0 <= k < encoder.labels.users.len(),
        encoder.labels.users[k].user.index < encoder.instrs.len(),
        forall|m: int|
            k < m < n && (#[trigger] encoder.labels.users[m]).user == encoder.labels.users[k].user
                ==> encoder.labels.user_offset(m) == encoder.labels.user_offset(k),
        n <= encoder.labels.users.len(),
    ensures
        ({
            let user = encoder.labels.users[k].user.index as int;
            let instruction = encoder.updated_branches(n)[user];
            &&& forall|offset: BranchOffset| #[trigger]
                instruction.with_branch_offset(offset) == encoder.instrs[user].with_branch_offset(
                    offset,
                )
            &&& n > k ==> instruction == encoder.instrs[user].with_branch_offset(
                encoder.labels.user_offset(k)->Ok_0,
            )
        }),
    decreases n,
{
    if n > 0 {
        lemma_updated_branch(encoder, k, (n - 1) as nat);
        lemma_updated_branches(encoder, (n - 1) as nat);
        let before = encoder.updated_branches((n - 1) as nat);
        let other = encoder.labels.users[n - 1].user;
        assert(before.len() == encoder.instrs.len());
        assert(n - 1 > k && other == encoder.labels.users[k].user ==> encoder.labels.user_offset(
            n - 1,
        ) == encoder.labels.user_offset(k));
    }
}

/// Resolving a label later is as good as resolving it at once: once the branch
/// offsets of the first `n` label users are updated, an instruction among them
/// that could not be resolved when it was encoded has the offset that the label is
/// resolved to now that it is pinned. If the instruction was registered for several
/// labels that are pinned at different places the last one counts.
pub proof fn lemma_deferred_branches_are_resolved(encoder: InstrEncoderView, k: int, n: nat)
    requires
        encoder.can_update_branches(),
        encoder.offsets_in_bounds(n as int),
        0 <= k < n <= encoder.labels.users.len(),
        forall|m: int|
            k < m < n && (#[trigger] encoder.labels.users[m]).user == encoder.labels.users[k].user
                ==> encoder.labels.user_offset(m) == encoder.labels.user_offset(k),
    ensures
        ({
            let LabelUser { label, user } = encoder.labels.users[k];
            let resolved = encoder.labels.try_resolve(label, user).1;
            let updated = encoder.updated_branches(n);
            &&& encoder.labels.is_pinned(label)
            &&& resolved is Ok
            &&& updated[user.index as int] == encoder.instrs[user.index as int].with_branch_offset(
                resolved->Ok_0,
            )
        }),
{
    assert forall|m: int| 0 <= m < n implies (#[trigger] encoder.labels.users[m]).user.index
        < encoder.instrs.len() by {
        assert(encoder.offsets_in_bounds(m));
    }
    assert(encoder.offsets_in_bounds(k));
    assert(encoder.labels.user_offset(k) is Ok);
    lemma_updated_branch(encoder, k, n);
}

/// Resolving a label that is not pinned yet is deferred: it gives an uninitialized
/// offset and changes no instruction, and when the branch offsets are updated
/// later, the instruction gets the offset to the place that the label is pinned to
/// by then.
///
/// Here `later` is the encoder when the branch offsets are updated, with anything
/// done to its labels in between but resetting them. The users up to `n` are those
/// that are updated, which are all of them unless an offset is out of bounds.
pub proof fn lemma_unpinned_label_is_resolved_later(
    encoder: InstrEncoderView,
    label: LabelRef,
    instr: Instr,
    steps: Seq<LabelStep>,
    later: InstrEncoderView,
    n: nat,
)
    requires
        encoder.labels.has(label),
        encoder.labels.label(label) is Unpinned,
        later.labels == after_label_steps(encoder.labels.try_resolve(label, instr).0, steps),
        later.can_update_branches(),
        later.offsets_in_bounds(n as int),
        encoder.labels.users.len() < n <= later.labels.users.len(),
        forall|m: int|
            encoder.labels.users.len() < m < n && (#[trigger] later.labels.users[m]).user == instr
                ==> later.labels.user_offset(m) == BranchOffset::between(
                instr,
                later.labels.target(label),
            ),
    ensures
        ({
            let (labels, result) = encoder.labels.try_resolve(label, instr);
            let offset = BranchOffset::between(instr, later.labels.target(label));
            &&& result == Ok::<BranchOffset, TranslationError>(BranchOffset::unknown())
            &&& encoder.with_labels(labels).instrs == encoder.instrs
            &&& later.labels.is_pinned(label)
            &&& offset is Ok
            &&& later.updated_branches(n)[instr.index as int]
                == later.instrs[instr.index as int].with_branch_offset(offset->Ok_0)
        }),
{
    lemma_unpinned_label_is_deferred(encoder.labels, label, instr, steps);
    lemma_deferred_branches_are_resolved(later, encoder.labels.users.len() as int, n);
}

/// Updating the branch offsets changes no instruction that was not registered as
/// user of a label.
pub proof fn lemma_other_instructions_are_kept(encoder: InstrEncoderView, n: nat, i: int)
    requires
        encoder.users_known(n as int),
        n <= encoder.labels.users.len(),
        0 <= i < encoder.instrs.len(),
        forall|k: int| 0 <= k < n ==> (#[trigger] encoder.labels.users[k]).user.index != i,
    ensures
        encoder.updated_branches(n).len() == encoder.instrs.len(),
        encoder.updated_branches(n)[i] == encoder.instrs[i],
    decreases n,
{
    if n > 0 {
        lemma_other_instructions_are_kept(encoder, (n - 1) as nat, i);
        assert(encoder.labels.users[n - 1].user.index != i);
    }
}

/// Creates the instruction that copies a constant value by way of a function
/// local constant value.
fn copy_imm(stack: &mut ValueStack, result: Register, value: UntypedValue) -> (outcome: Result<
    Instruction,
    TranslationError,
>)
    requires
        old(stack).wf(),
    ensures
        final(stack).wf(),
        final(stack)@ == old(stack)@.with_consts(
            copy_from_pool(old(stack)@.consts, result, value).0,
        ),
        outcome == copy_from_pool(old(stack)@.consts, result, value).1,
{
    match stack.alloc_const(value) {
        Ok(cref) => Ok(Instruction::copy(result, cref)),
        Err(error) => Err(error),
    }
}

/// Creates the instruction that copies a constant value.
fn copy_const(stack: &mut ValueStack, result: Register, value: TypedValue) -> (outcome: Result<
    Instruction,
    TranslationError,
>)
    requires
        old(stack).wf(),
    ensures
        final(stack).wf(),
        final(stack)@ == old(stack)@.with_consts(
            copy_of_const(old(stack)@.consts, result, value).0,
        ),
        outcome == copy_of_const(old(stack)@.consts, result, value).1,
{
    proof {
        let bits = value.value.bits;
        assert((bits as i32) as u32 == bits as u32) by (bit_vector);
    }
    match value.ty() {
        ValueType::I32 => Ok(Instruction::copy_imm32(result, AnyConst32::from(i32::from(value)))),
        ValueType::F32 => Ok(Instruction::copy_imm32(result, AnyConst32::from(F32::from(value)))),
        ValueType::I64 => match I64Const32::from_i64(i64::from(value)) {
            Some(value) => Ok(Instruction::copy_i64imm32(result, value)),
            None => copy_imm(stack, result, UntypedValue::from(value)),
        },
        ValueType::F64 => match F64Const32::from_f64(F64::from(value)) {
            Some(value) => Ok(Instruction::copy_f64imm32(result, value)),
            None => copy_imm(stack, result, UntypedValue::from(value)),
        },
        ValueType::FuncRef => copy_imm(stack, result, UntypedValue::from(value)),
        ValueType::ExternRef => copy_imm(stack, result, UntypedValue::from(value)),
    }
}

/// The encoder of instructions.
#[derive(Debug)]
pub struct InstrEncoder {
    /// The instructions that are already encoded.
    instrs: InstrSequence,
    /// The labels that were created during the translation of the function.
    labels: LabelRegistry,
}

impl View for InstrEncoder {
    type V = InstrEncoderView;

    closed spec fn view(&self) -> InstrEncoderView {
        InstrEncoderView { instrs: self.instrs@, labels: self.labels@ }
    }
}

impl Default for InstrEncoder {
    fn default() -> (encoder: Self)
        ensures
            encoder@ == InstrEncoderView::initial(),
    {
        InstrEncoder { instrs: InstrSequence::default(), labels: LabelRegistry::default() }
    }
}

impl InstrEncoder {
    /// Resets the encoder.
    pub fn reset(&mut self)
        ensures
            final(self)@ == InstrEncoderView::initial(),
    {
        self.instrs.reset();
        self.labels.reset();
    }

    /// Returns the encoded instructions. None are left in the encoder.
    pub fn drain_instrs(&mut self) -> (instrs: Vec<Instruction>)
        ensures
            instrs@ == old(self)@.instrs,
            final(self)@ == old(self)@.with_instrs(Seq::empty()),
    {
        self.instrs.drain()
    }

    /// Creates a new label that is not resolved and returns the reference to it.
    pub fn new_label(&mut self) -> (label: LabelRef)
        requires
            old(self)@.labels.labels.len() <= u32::MAX,
        ensures
            label.index == old(self)@.labels.labels.len(),
            final(self)@ == old(self)@.with_labels(old(self)@.labels.with_new_label()),
    {
        self.labels.new_label()
    }

    /// Resolves the label at the current instruction position.
    ///
    /// Does nothing if the label has already been resolved.
    pub fn pin_label_if_unpinned(&mut self, label: LabelRef)
        requires
            old(self)@.labels.has(label),
            has_next_instr(old(self)@.instrs),
        ensures
            final(self)@ == old(self)@.with_labels(
                old(self)@.labels.pinned(label, next_instr(old(self)@.instrs)),
            ),
    {
        let instr = self.instrs.next_instr();
        self.labels.try_pin_label(label, instr)
    }

    /// Resolves the label, which is not resolved yet, at the current instruction
    /// position.
    pub fn pin_label(&mut self, label: LabelRef)
        requires
            old(self)@.labels.has(label),
            old(self)@.labels.label(label) is Unpinned,
            has_next_instr(old(self)@.instrs),
        ensures
            final(self)@ == old(self)@.with_labels(
                old(self)@.labels.pinned(label, next_instr(old(self)@.instrs)),
            ),
    {
        let instr = self.instrs.next_instr();
        let result = self.labels.pin_label(label, instr);
        assert(result is Ok);
    }

    /// Tries to resolve the label for the instruction that is currently
    /// constructed.
    ///
    /// Returns an uninitialized offset if the label cannot be resolved yet and
    /// defers resolution to later.
    ///
    /// # Errors
    ///
    /// If the branch offset is out of bounds.
    pub fn try_resolve_label(&mut self, label: LabelRef) -> (result: Result<
        BranchOffset,
        TranslationError,
    >)
        requires
            old(self)@.labels.has(label),
            has_next_instr(old(self)@.instrs),
        ensures
            ({
                let user = next_instr(old(self)@.instrs);
                &&& final(self)@ == old(self)@.with_labels(
                    old(self)@.labels.try_resolve(label, user).0,
                )
                &&& result == old(self)@.labels.try_resolve(label, user).1
            }),
    {
        let user = self.instrs.next_instr();
        self.try_resolve_label_for(label, user)
    }

    /// Tries to resolve the label for the given instruction.
    ///
    /// Returns an uninitialized offset if the label cannot be resolved yet and
    /// defers resolution to later.
    ///
    /// # Errors
    ///
    /// If the branch offset is out of bounds.
    pub fn try_resolve_label_for(&mut self, label: LabelRef, instr: Instr) -> (result: Result<
        BranchOffset,
        TranslationError,
    >)
        requires
            old(self)@.labels.has(label),
        ensures
            final(self)@ == old(self)@.with_labels(
                old(self)@.labels.try_resolve(label, instr).0,
            ),
            result == old(self)@.labels.try_resolve(label, instr).1,
    {
        self.labels.try_resolve_label(label, instr)
    }

    /// Updates the branch offsets of all branch instructions whose labels could
    /// not be resolved before.
    ///
    /// # Errors
    ///
    /// If a branch offset is out of bounds. The instructions of the users before
    /// that one are updated then.
    pub fn update_branch_offsets(&mut self) -> (result: Result<(), TranslationError>)
        requires
            old(self)@.can_update_branches(),
        ensures
            match result {
                Ok(_) => {
                    &&& old(self)@.offsets_in_bounds(old(self)@.labels.users.len() as int)
                    &&& final(self)@ == old(self)@.with_instrs(
                        old(self)@.updated_branches(old(self)@.labels.users.len()),
                    )
                },
                Err(error) => exists|n: nat|
                    {
                        &&& n < old(self)@.labels.users.len()
                        &&& old(self)@.offsets_in_bounds(n as int)
                        &&& old(self)@.labels.user_offset(n as int) == Err::<
                            BranchOffset,
                            TranslationError,
                        >(error)
                        &&& final(self)@ == old(self)@.with_instrs(
                            #[trigger] old(self)@.updated_branches(n),
                        )
                    },
            },
    {
        let mut i: usize = 0;
        while i < self.labels.len_users()
            invariant
                0 <= i <= self.labels@.users.len(),
                old(self)@.can_update_branches(),
                self@ == old(self)@.with_instrs(old(self)@.updated_branches(i as nat)),
                old(self)@.offsets_in_bounds(i as int),
                old(self)@.users_known(i as int),
            decreases self.labels@.users.len() - i,
        {
            proof {
                lemma_updated_branches(old(self)@, i as nat);
                assert(self@.labels.users[i as int] == old(self)@.labels.users[i as int]);
            }
            let (user, offset) = self.labels.resolved_user(i);
            let offset = match offset {
                Ok(offset) => offset,
                Err(error) => {
                    return Err(error);
                },
            };
            assert(self@.instrs[user.index as int].is_branch());
            self.instrs.get_mut(user).update_branch_offset(offset);
            i = i + 1;
            assert(self@.instrs =~= old(self)@.updated_branches(i as nat));
        }
        Ok(())
    }

    /// Increases the fuel of the fuel consuming instruction `instr` by `delta`.
    ///
    /// # Errors
    ///
    /// If the fuel is out of bounds after this operation. Nothing changes then.
    pub fn bump_fuel_consumption(&mut self, instr: Instr, delta: u64) -> (result: Result<
        (),
        TranslationError,
    >)
        requires
            instr.index < old(self)@.instrs.len(),
            old(self)@.instrs[instr.index as int] is ConsumeFuel,
        ensures
            match BlockFuel::of(old(self)@.instrs[instr.index as int]->fuel.units + delta) {
                Ok(fuel) => {
                    &&& result == Ok::<(), TranslationError>(())
                    &&& final(self)@ == old(self)@.with_instr(
                        instr,
                        Instruction::ConsumeFuel { fuel },
                    )
                },
                Err(error) => {
                    &&& result == Err::<(), TranslationError>(error)
                    &&& final(self)@ == old(self)@
                },
            },
    {
        let result = self.instrs.get_mut(instr).bump_fuel_consumption(delta);
        assert(result is Err ==> self@.instrs =~= old(self)@.instrs);
        result
    }

    /// Pushes an instruction and returns the reference to it.
    ///
    /// # Errors
    ///
    /// If there are too many instructions. Nothing changes then.
    pub fn push_instr(&mut self, instr: Instruction) -> (result: Result<Instr, TranslationError>)
        ensures
            final(self)@ == old(self)@.with_instrs(push_instr(old(self)@.instrs, instr).0),
            result == push_instr(old(self)@.instrs, instr).1,
    {
        self.instrs.push(instr)
    }

    /// Encodes a copy of `value` into the register `result`.
    ///
    /// Returns the reference to the instruction, or nothing if no instruction is
    /// needed since `value` is `result`. The most compact instruction for `value`
    /// is selected.
    ///
    /// # Errors
    ///
    /// - If too many function local constant values are allocated. Nothing changes
    ///   then.
    /// - If there are too many instructions.
    pub fn encode_copy(
        &mut self,
        stack: &mut ValueStack,
        result: Register,
        value: TypedProvider,
    ) -> (outcome: Result<Option<Instr>, TranslationError>)
        requires
            old(stack).wf(),
        ensures
            final(stack).wf(),
            ({
                let copied = encode_copy(old(self)@.instrs, old(stack)@.consts, result, value);
                &&& final(self)@ == old(self)@.with_instrs(copied.instrs)
                &&& final(stack)@ == old(stack)@.with_consts(copied.consts)
                &&& outcome == copied.outcome
            }),
    {
        let instruction = match value {
            Provider::Register(value) => {
                if result == value {
                    return Ok(None);
                }
                Instruction::copy(result, value)
            },
            Provider::Const(value) => {
                match copy_const(stack, result, value) {
                    Ok(instruction) => instruction,
                    Err(error) => {
                        return Err(error);
                    },
                }
            },
        };
        match self.push_instr(instruction) {
            Ok(instr) => Ok(Some(instr)),
            Err(error) => Err(error),
        }
    }

    /// Encodes copies, one after the other.
    fn encode_copies(&mut self, stack: &mut ValueStack, copies: &Vec<RegisterCopy>) -> (outcome:
        Result<(), TranslationError>)
        requires
            old(stack).wf(),
        ensures
            final(stack).wf(),
            ({
                let copied = encode_copies(old(self)@.instrs, old(stack)@.consts, copies@);
                &&& final(self)@ == old(self)@.with_instrs(copied.instrs)
                &&& final(stack)@ == old(stack)@.with_consts(copied.consts)
                &&& outcome == copied.outcome
            }),
    {
        let mut i: usize = 0;
        while i < copies.len()
            invariant
                0 <= i <= copies.len(),
                stack.wf(),
                ({
                    let copied = encode_copies(
                        old(self)@.instrs,
                        old(stack)@.consts,
                        copies@.take(i as int),
                    );
                    &&& self@ == old(self)@.with_instrs(copied.instrs)
                    &&& stack@ == old(stack)@.with_consts(copied.consts)
                    &&& copied.outcome is Ok
                }),
            decreases copies.len() - i,
        {
            assert(copies@.take(i + 1).drop_last() =~= copies@.take(i as int));
            let copy = copies[i];
            if let Err(error) = self.encode_copy(stack, copy.result, copy.value) {
                proof {
                    lemma_encode_copies_stops(
                        old(self)@.instrs,
                        old(stack)@.consts,
                        copies@,
                        i + 1,
                    );
                }
                return Err(error);
            }
            i = i + 1;
        }
        assert(copies@.take(i as int) =~= copies@);
        Ok(())
    }

    /// Encodes copies of `params` into the registers `results`, in an order in
    /// which no parameter is overwritten before it is copied.
    ///
    /// If there is no such order then the register behind `results` is used as
    /// well. It is the last one of the next `reserve` dynamic registers.
    fn copy_params(
        &mut self,
        stack: &mut ValueStack,
        results: RegisterSpanIter,
        reserve: usize,
        params: &[TypedProvider],
    ) -> (outcome: Result<RegisterSpanIter, TranslationError>)
        requires
            old(stack).wf(),
            old(stack)@.registers.phase is Alloc,
            results.wf(),
            results@.len() == params@.len(),
        ensures
            final(stack).wf(),
            ({
                let head = results.next.index as int;
                let encoded = copy_params(
                    old(self)@.instrs,
                    old(stack)@,
                    head,
                    reserve as nat,
                    params@,
                );
                &&& final(self)@ == old(self)@.with_instrs(encoded.instrs)
                &&& final(stack)@ == encoded.stack
                &&& outcome == encoded.outcome
            }),
    {
        let copies = copies_of_params(results, params);
        let (copies, needs_spare) = order_copies(copies, results.last);
        if needs_spare {
            if let Err(error) = stack.peek_dynamic_n(reserve) {
                return Err(error);
            }
        }
        if let Err(error) = self.encode_copies(stack, &copies) {
            return Err(error);
        }
        Ok(results)
    }

    /// Encodes the parameters of a call if necessary.
    ///
    /// Returns the contiguous registers that hold the parameters once the encoded
    /// instructions have been executed. Parameters are copied in their order unless
    /// that overwrites one that is still to be copied. Where parameters change
    /// places in a cycle the register behind the returned ones is used as well.
    ///
    /// # Errors
    ///
    /// - If the register space is exhausted. Nothing is encoded then.
    /// - If too many function local constant values are allocated, or if there are
    ///   too many instructions. The copies before the one that failed are encoded
    ///   then.
    pub fn encode_call_params(
        &mut self,
        stack: &mut ValueStack,
        params: &[TypedProvider],
    ) -> (outcome: Result<RegisterSpanIter, TranslationError>)
        requires
            old(stack).wf(),
            !is_contiguous(params@) ==> old(stack)@.registers.phase is Alloc,
        ensures
            final(stack).wf(),
            ({
                let encoded = encode_call_params(old(self)@.instrs, old(stack)@, params@);
                &&& final(self)@ == old(self)@.with_instrs(encoded.instrs)
                &&& final(stack)@ == encoded.stack
                &&& outcome == encoded.outcome
            }),
    {
        if let Some(register_span) = RegisterSpanIter::from_providers(params) {
            return Ok(register_span);
        }
        let copy_results = match stack.peek_dynamic_n(params.len()) {
            Ok(span) => span.iter(params.len()),
            Err(error) => {
                return Err(error);
            },
        };
        self.copy_params(stack, copy_results, params.len() + 1, params)
    }

    /// Encodes the parameters of a conditional branch if necessary.
    ///
    /// Returns the contiguous registers that hold the parameters once the encoded
    /// instructions have been executed. If no copies are needed the parameters are
    /// put back on the stack as they are, otherwise the registers of the copies are
    /// pushed. Parameters are copied in their order unless that overwrites one that
    /// is still to be copied. Where parameters change places in a cycle the register
    /// behind the returned ones is used as well.
    ///
    /// # Errors
    ///
    /// - If the register space is exhausted. Nothing is encoded then. If only the
    ///   register that a cycle needs is missing, those of the copies are pushed.
    /// - If too many function local constant values are allocated, or if there are
    ///   too many instructions. The copies before the one that failed are encoded
    ///   then.
    pub fn encode_conditional_branch_params(
        &mut self,
        stack: &mut ValueStack,
        params: &[TypedProvider],
    ) -> (outcome: Result<RegisterSpanIter, TranslationError>)
        requires
            old(stack).wf(),
            if is_contiguous(params@) {
                forall|i: int|
                    0 <= i < params@.len() ==> old(stack)@.can_take(#[trigger] params@[i])
            } else {
                old(stack)@.registers.phase is Alloc
            },
        ensures
            final(stack).wf(),
            ({
                let encoded = encode_branch_params(old(self)@.instrs, old(stack)@, params@);
                &&& final(self)@ == old(self)@.with_instrs(encoded.instrs)
                &&& final(stack)@ == encoded.stack
                &&& outcome == encoded.outcome
            }),
    {
        if let Some(register_span) = RegisterSpanIter::from_providers(params) {
            return match stack.push_n(params) {
                Ok(_) => Ok(register_span),
                Err(error) => Err(error),
            };
        }
        let copy_results = match stack.push_dynamic_n(params.len()) {
            Ok(span) => span.iter(params.len()),
            Err(error) => {
                return Err(error);
            },
        };
        self.copy_params(stack, copy_results, 1, params)
    }

    /// Pushes an instruction that consumes the fuel of a block and returns the
    /// reference to it.
    ///
    /// # Errors
    ///
    /// - If the fuel is out of bounds.
    /// - If there are too many instructions.
    ///
    /// Nothing changes then.
    pub fn push_consume_fuel_instr(&mut self, block_fuel: u64) -> (result: Result<
        Instr,
        TranslationError,
    >)
        ensures
            match BlockFuel::of(block_fuel as int) {
                Ok(fuel) => {
                    let instruction = Instruction::ConsumeFuel { fuel };
                    &&& final(self)@ == old(self)@.with_instrs(
                        push_instr(old(self)@.instrs, instruction).0,
                    )
                    &&& result == push_instr(old(self)@.instrs, instruction).1
                },
                Err(error) => {
                    &&& final(self)@ == old(self)@
                    &&& result == Err::<Instr, TranslationError>(error)
                },
            },
    {
        match Instruction::consume_fuel(block_fuel) {
            Ok(instruction) => self.instrs.push(instruction),
            Err(error) => Err(error),
        }
    }
}

impl DefragRegister for InstrEncoder {
    type State = InstrEncoderView;

    open spec fn defrag_state(&self) -> InstrEncoderView {
        self@
    }

    open spec fn knows_user(state: InstrEncoderView, user: Instr) -> bool {
        user.index < state.instrs.len()
    }

    open spec fn defragged(
        state: InstrEncoderView,
        user: Instr,
        reg: Register,
        new_reg: Register,
    ) -> InstrEncoderView {
        state.with_instr(user, state.instrs[user.index as int].with_register(reg, new_reg))
    }

    fn defrag_register(&mut self, user: Instr, reg: Register, new_reg: Register) {
        self.instrs.get_mut(user).replace_register(reg, new_reg);
    }
}

} // verus!
