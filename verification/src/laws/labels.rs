//! Laws of labels and of the branches that wait for them.
use crate::bytecode::branch::{BranchOffset, Instr};
use crate::bytecode::instruction::Instruction;
use crate::encoder::{
    lemma_deferred_branches_are_resolved, lemma_other_instructions_are_kept, lemma_updated_branches,
    InstrEncoder, InstrEncoderView,
};
use crate::error::TranslationError;
use crate::labels::{Label, LabelError, LabelRef, LabelRegistry, LabelUser};
use vstd::prelude::*;

verus! {

/// A new registry has no labels and no users, and neither has one that was reset.
pub proof fn lemma_new_registry_is_empty(created: LabelRegistry, registry: &mut LabelRegistry)
    requires
        call_ensures(<LabelRegistry as Default>::default, (), created),
        call_ensures(LabelRegistry::reset, (registry,), ()),
    ensures
        created@.labels.len() == 0,
        created@.users.len() == 0,
        final(registry)@.labels.len() == 0,
        final(registry)@.users.len() == 0,
{
}

/// A new label gets the next index and is not pinned. All labels before it, and
/// all users, stay as they are.
pub proof fn lemma_new_label_is_unpinned(registry: &mut LabelRegistry, label: LabelRef)
    requires
        call_ensures(LabelRegistry::new_label, (registry,), label),
    ensures
        label.index == old(registry)@.labels.len(),
        final(registry)@.labels.len() == old(registry)@.labels.len() + 1,
        final(registry)@.labels[label.index as int] is Unpinned,
        forall|i: int|
            0 <= i < old(registry)@.labels.len() ==> #[trigger] final(registry)@.labels[i]
                == old(registry)@.labels[i],
        final(registry)@.users == old(registry)@.users,
{
}

/// Pinning a label that is not pinned yet pins it to the instruction. Pinning one
/// that is pinned already fails, tells where it is pinned, and changes nothing. All
/// other labels, and all users, stay as they are.
pub proof fn lemma_labels_are_pinned_once(
    registry: &mut LabelRegistry,
    label: LabelRef,
    instr: Instr,
    result: Result<(), LabelError>,
)
    requires
        label.index < old(registry)@.labels.len(),
        call_ensures(LabelRegistry::pin_label, (registry, label, instr), result),
    ensures
        final(registry)@.labels.len() == old(registry)@.labels.len(),
        forall|i: int|
            0 <= i < old(registry)@.labels.len() && i != label.index
                ==> #[trigger] final(registry)@.labels[i] == old(registry)@.labels[i],
        final(registry)@.users == old(registry)@.users,
        match old(registry)@.labels[label.index as int] {
            Label::Unpinned => {
                &&& result is Ok
                &&& final(registry)@.labels[label.index as int] == Label::Pinned(instr)
            },
            Label::Pinned(target) => {
                &&& result == Err::<(), LabelError>(
                    LabelError::AlreadyPinned { label, pinned_to: target },
                )
                &&& final(registry)@.labels[label.index as int] == Label::Pinned(target)
            },
        },
{
}

/// Trying to pin a label pins it as pinning does, and does nothing if it is pinned
/// already.
pub proof fn lemma_pinned_labels_stay_pinned(
    registry: &mut LabelRegistry,
    label: LabelRef,
    instr: Instr,
)
    requires
        label.index < old(registry)@.labels.len(),
        call_ensures(LabelRegistry::try_pin_label, (registry, label, instr), ()),
    ensures
        final(registry)@.labels.len() == old(registry)@.labels.len(),
        forall|i: int|
            0 <= i < old(registry)@.labels.len() && i != label.index
                ==> #[trigger] final(registry)@.labels[i] == old(registry)@.labels[i],
        final(registry)@.users == old(registry)@.users,
        match old(registry)@.labels[label.index as int] {
            Label::Unpinned => final(registry)@.labels[label.index as int] == Label::Pinned(instr),
            Label::Pinned(target) => final(registry)@.labels[label.index as int]
                == Label::Pinned(target),
        },
{
}

/// A resolved label is reached: if the label is pinned, going forward from the user
/// by the offset leads to the instruction that it is pinned to, and nothing
/// changes. If it is not pinned yet, the offset is zero and the user is registered
/// behind all others.
pub proof fn lemma_resolved_label_is_reached(
    registry: &mut LabelRegistry,
    label: LabelRef,
    user: Instr,
    result: Result<BranchOffset, TranslationError>,
)
    requires
        label.index < old(registry)@.labels.len(),
        call_ensures(LabelRegistry::try_resolve_label, (registry, label, user), result),
    ensures
        final(registry)@.labels == old(registry)@.labels,
        match old(registry)@.labels[label.index as int] {
            Label::Pinned(target) => {
                &&& final(registry)@.users == old(registry)@.users
                &&& match result {
                    Ok(offset) => user.index + offset.offset == target.index,
                    Err(error) => {
                        &&& error.inner is BranchOffsetOutOfBounds
                        &&& !(-0x8000_0000 <= target.index - user.index < 0x8000_0000)
                    },
                }
            },
            Label::Unpinned => {
                &&& result matches Ok(offset)
                &&& offset.offset == 0
                &&& final(registry)@.users == old(registry)@.users.push(LabelUser { label, user })
            },
        },
{
}

/// Registered users are counted.
pub proof fn lemma_registered_users_are_counted(registry: &LabelRegistry, len: usize)
    requires
        call_ensures(LabelRegistry::len_users, (registry,), len),
    ensures
        len == registry@.users.len(),
{
}

/// A registered user whose label is pinned reaches it.
pub proof fn lemma_registered_user_reaches_its_label(
    registry: &LabelRegistry,
    n: usize,
    target: Instr,
    result: (Instr, Result<BranchOffset, TranslationError>),
)
    requires
        n < registry@.users.len(),
        registry@.users[n as int].label.index < registry@.labels.len(),
        registry@.labels[registry@.users[n as int].label.index as int] == Label::Pinned(target),
        call_ensures(LabelRegistry::resolved_user, (registry, n), result),
    ensures
        result.0 == registry@.users[n as int].user,
        match result.1 {
            Ok(offset) => result.0.index + offset.offset == target.index,
            Err(error) => {
                &&& error.inner is BranchOffsetOutOfBounds
                &&& !(-0x8000_0000 <= target.index - result.0.index < 0x8000_0000)
            },
        },
{
}

/// A new label of the encoder is not pinned. Everything else stays as it is.
pub proof fn lemma_encoder_creates_labels(encoder: &mut InstrEncoder, label: LabelRef)
    requires
        call_ensures(InstrEncoder::new_label, (encoder,), label),
    ensures
        final(encoder)@.instrs == old(encoder)@.instrs,
        final(encoder)@.labels.users == old(encoder)@.labels.users,
        final(encoder)@.labels.labels == old(encoder)@.labels.labels.push(Label::Unpinned),
        label.index == old(encoder)@.labels.labels.len(),
{
}

/// Labels are pinned at the position of the next instruction: the one that is
/// pushed next is the one that the label stands for. A label that is pinned already
/// stays where it is. Everything else stays as it is.
pub proof fn lemma_labels_are_pinned_at_the_next_instruction(
    encoder: &mut InstrEncoder,
    other: &mut InstrEncoder,
    label: LabelRef,
)
    requires
        label.index < old(encoder)@.labels.labels.len(),
        old(encoder)@.instrs.len() <= 0xffff_ffff,
        call_ensures(InstrEncoder::pin_label_if_unpinned, (encoder, label), ()),
        label.index < old(other)@.labels.labels.len(),
        old(other)@.labels.labels[label.index as int] is Unpinned,
        old(other)@.instrs.len() <= 0xffff_ffff,
        call_ensures(InstrEncoder::pin_label, (other, label), ()),
    ensures
        final(encoder)@.instrs == old(encoder)@.instrs,
        final(encoder)@.labels.users == old(encoder)@.labels.users,
        final(encoder)@.labels.labels == (match old(encoder)@.labels.labels[label.index as int] {
            Label::Unpinned => old(encoder)@.labels.labels.update(
                label.index as int,
                Label::Pinned(Instr { index: old(encoder)@.instrs.len() as u32 }),
            ),
            Label::Pinned(_) => old(encoder)@.labels.labels,
        }),
        final(other)@.instrs == old(other)@.instrs,
        final(other)@.labels.users == old(other)@.labels.users,
        final(other)@.labels.labels == old(other)@.labels.labels.update(
            label.index as int,
            Label::Pinned(Instr { index: old(other)@.instrs.len() as u32 }),
        ),
{
}

/// Labels are resolved for the instruction that is given, or for the next one. No
/// instruction changes.
pub proof fn lemma_encoder_resolves_labels(
    encoder: &mut InstrEncoder,
    label: LabelRef,
    user: Instr,
    result: Result<BranchOffset, TranslationError>,
)
    requires
        label.index < old(encoder)@.labels.labels.len(),
        call_ensures(InstrEncoder::try_resolve_label_for, (encoder, label, user), result) || {
            &&& call_ensures(InstrEncoder::try_resolve_label, (encoder, label), result)
            &&& user.index == old(encoder)@.instrs.len()
        },
    ensures
        final(encoder)@.instrs == old(encoder)@.instrs,
        final(encoder)@.labels.labels == old(encoder)@.labels.labels,
        match old(encoder)@.labels.labels[label.index as int] {
            Label::Pinned(target) => {
                &&& final(encoder)@.labels.users == old(encoder)@.labels.users
                &&& match result {
                    Ok(offset) => user.index + offset.offset == target.index,
                    Err(error) => {
                        &&& error.inner is BranchOffsetOutOfBounds
                        &&& !(-0x8000_0000 <= target.index - user.index < 0x8000_0000)
                    },
                }
            },
            Label::Unpinned => {
                &&& result matches Ok(offset)
                &&& offset.offset == 0
                &&& final(encoder)@.labels.users == old(encoder)@.labels.users.push(
                    LabelUser { label, user },
                )
            },
        },
{
}

/// The number of instructions that a branch goes forward.
pub open spec fn branch_distance(instruction: Instruction) -> int {
    match instruction {
        Instruction::Branch { offset } => offset.offset as int,
        Instruction::BranchEqz { offset, .. } => offset.offset as int,
        Instruction::BranchNez { offset, .. } => offset.offset as int,
        _ => 0,
    }
}

/// Whether two instructions are the same kind of branch on the same condition.
pub open spec fn is_same_branch(a: Instruction, b: Instruction) -> bool {
    match (a, b) {
        (Instruction::Branch { .. }, Instruction::Branch { .. }) => true,
        (
            Instruction::BranchEqz { condition: x, .. },
            Instruction::BranchEqz { condition: y, .. },
        ) => x == y,
        (
            Instruction::BranchNez { condition: x, .. },
            Instruction::BranchNez { condition: y, .. },
        ) => x == y,
        _ => false,
    }
}

/// Whether all registered users are branches, and the labels that they wait for are
/// pinned.
pub open spec fn users_wait_for_pinned_labels(encoder: InstrEncoderView) -> bool {
    forall|k: int|
        0 <= k < encoder.labels.users.len() ==> {
            let LabelUser { label, user } = #[trigger] encoder.labels.users[k];
            &&& label.index < encoder.labels.labels.len()
            &&& encoder.labels.labels[label.index as int] is Pinned
            &&& user.index < encoder.instrs.len()
            &&& is_same_branch(
                encoder.instrs[user.index as int],
                encoder.instrs[user.index as int],
            )
        }
}

/// The branch offsets can be updated once all labels that are waited for are
/// pinned.
pub proof fn lemma_branches_of_pinned_labels_can_be_updated(encoder: &mut InstrEncoder)
    requires
        users_wait_for_pinned_labels(old(encoder)@),
    ensures
        call_requires(InstrEncoder::update_branch_offsets, (encoder,)),
{
    assert(old(encoder)@.can_update_branches());
}

/// Updated branches reach their labels: once the branch offsets are updated, going
/// forward from a registered user by the offset in its instruction leads to the
/// instruction that its label is pinned to, unless the same instruction is
/// registered again for another label. The branch is otherwise the same.
pub proof fn lemma_updated_branches_reach_their_labels(encoder: &mut InstrEncoder, k: int)
    requires
        users_wait_for_pinned_labels(old(encoder)@),
        call_ensures(
            InstrEncoder::update_branch_offsets,
            (encoder,),
            Ok::<(), TranslationError>(()),
        ),
        0 <= k < old(encoder)@.labels.users.len(),
        forall|m: int|
            k < m < old(encoder)@.labels.users.len()
                && (#[trigger] old(encoder)@.labels.users[m]).user
                == old(encoder)@.labels.users[k].user
                ==> old(encoder)@.labels.users[m].label == old(encoder)@.labels.users[k].label,
    ensures
        ({
            let LabelUser { label, user } = old(encoder)@.labels.users[k];
            let before = old(encoder)@.instrs[user.index as int];
            let after = final(encoder)@.instrs[user.index as int];
            &&& old(encoder)@.labels.labels[label.index as int] matches Label::Pinned(target)
            &&& user.index + branch_distance(after) == target.index
            &&& is_same_branch(before, after)
        }),
{
    let before = old(encoder)@;
    let len = before.labels.users.len();
    assert(before.can_update_branches());
    assert(before.offsets_in_bounds(len as int));
    assert(before.offsets_in_bounds(k));
    assert(before.labels.user_offset(k) is Ok);
    lemma_deferred_branches_are_resolved(before, k, len);
}

/// Whether the instruction at the index is that of a registered user.
pub open spec fn is_user(encoder: InstrEncoderView, i: int) -> bool {
    exists|k: int|
        0 <= k < encoder.labels.users.len() && (#[trigger] encoder.labels.users[k]).user.index == i
}

/// Whether the label of the user is pinned too far away for an offset of 32 bits.
pub open spec fn is_out_of_reach(labels: Seq<Label>, user: LabelUser) -> bool {
    &&& labels[user.label.index as int] matches Label::Pinned(target)
    &&& !(-0x8000_0000 <= target.index - user.user.index < 0x8000_0000)
}

/// Updating branch offsets changes nothing but the instructions of registered
/// users, whether it succeeds or not. It fails only if the offset of a registered
/// user needs more than 32 bits.
pub proof fn lemma_updating_branches_changes_only_users(
    encoder: &mut InstrEncoder,
    result: Result<(), TranslationError>,
)
    requires
        users_wait_for_pinned_labels(old(encoder)@),
        call_ensures(InstrEncoder::update_branch_offsets, (encoder,), result),
    ensures
        final(encoder)@.labels == old(encoder)@.labels,
        final(encoder)@.instrs.len() == old(encoder)@.instrs.len(),
        forall|i: int|
            0 <= i < old(encoder)@.instrs.len() && !is_user(old(encoder)@, i)
                ==> #[trigger] final(encoder)@.instrs[i] == old(encoder)@.instrs[i],
        result matches Err(error) ==> {
            &&& error.inner is BranchOffsetOutOfBounds
            &&& exists|k: int|
                {
                    &&& 0 <= k < old(encoder)@.labels.users.len()
                    &&& is_out_of_reach(
                        old(encoder)@.labels.labels,
                        #[trigger] old(encoder)@.labels.users[k],
                    )
                }
        },
{
    let before = old(encoder)@;
    let len = before.labels.users.len();
    assert(before.can_update_branches());
    let n: nat = match result {
        Ok(_) => len,
        Err(error) => choose|n: nat|
            {
                &&& n < len
                &&& before.offsets_in_bounds(n as int)
                &&& before.labels.user_offset(n as int) == Err::<BranchOffset, TranslationError>(
                    error,
                )
                &&& final(encoder)@ == before.with_instrs(#[trigger] before.updated_branches(n))
            },
    };
    assert(before.offsets_in_bounds(n as int));
    assert forall|m: int| 0 <= m < n implies (#[trigger] before.labels.users[m]).user.index
        < before.instrs.len() by {
        assert(before.offsets_in_bounds(m));
    }
    lemma_updated_branches(before, n);
    assert forall|i: int| 0 <= i < before.instrs.len() && !is_user(before, i) implies (
    #[trigger] final(encoder)@.instrs[i]) == before.instrs[i] by {
        lemma_other_instructions_are_kept(before, n, i);
    }
    if result is Err {
        assert(before.labels.is_pinned(before.labels.users[n as int].label));
    }
}

/// Updating branch offsets goes through the registered users in their order and
/// stops at the first one whose offset needs more than 32 bits. The users before it
/// reach their labels then, unless they are registered again for another label
/// before it. Every instruction stays the same branch, or stays as it is.
pub proof fn lemma_failed_update_stops_at_the_first_failure(
    encoder: &mut InstrEncoder,
    error: TranslationError,
)
    requires
        users_wait_for_pinned_labels(old(encoder)@),
        call_ensures(
            InstrEncoder::update_branch_offsets,
            (encoder,),
            Err::<(), TranslationError>(error),
        ),
    ensures
        exists|n: int|
            {
                &&& 0 <= n < old(encoder)@.labels.users.len()
                &&& is_out_of_reach(
                    old(encoder)@.labels.labels,
                    #[trigger] old(encoder)@.labels.users[n],
                )
                &&& forall|k: int|
                    0 <= k < n && is_last_for_its_label(old(encoder)@, k, n)
                        ==> #[trigger] reaches_its_label(old(encoder)@, final(encoder)@.instrs, k)
            },
        forall|i: int|
            0 <= i < old(encoder)@.instrs.len() ==> {
                ||| (#[trigger] final(encoder)@.instrs[i]) == old(encoder)@.instrs[i]
                ||| is_same_branch(old(encoder)@.instrs[i], final(encoder)@.instrs[i])
            },
{
    let before = old(encoder)@;
    let len = before.labels.users.len();
    assert(before.can_update_branches());
    let n = choose|n: nat|
        {
            &&& n < len
            &&& before.offsets_in_bounds(n as int)
            &&& before.labels.user_offset(n as int) == Err::<BranchOffset, TranslationError>(error)
            &&& final(encoder)@ == before.with_instrs(#[trigger] before.updated_branches(n))
        };
    assert(before.labels.users[n as int].label.index < before.labels.labels.len());
    assert forall|k: int|
        0 <= k < n && is_last_for_its_label(before, k, n as int) implies (
    #[trigger] reaches_its_label(before, final(encoder)@.instrs, k)) by {
        assert(before.labels.user_offset(k) is Ok);
        lemma_deferred_branches_are_resolved(before, k, n);
    }
    lemma_updated_branches_stay_branches(before, n);
}

/// Whether the label user `k` is not registered again for another label before the
/// user `n`.
pub open spec fn is_last_for_its_label(encoder: InstrEncoderView, k: int, n: int) -> bool {
    forall|m: int|
        k < m < n && (#[trigger] encoder.labels.users[m]).user == encoder.labels.users[k].user
            ==> encoder.labels.users[m].label == encoder.labels.users[k].label
}

/// Whether going forward from the label user `k` by the offset in its instruction
/// leads to the instruction that its label is pinned to.
pub open spec fn reaches_its_label(
    encoder: InstrEncoderView,
    instrs: Seq<Instruction>,
    k: int,
) -> bool {
    let LabelUser { label, user } = encoder.labels.users[k];
    &&& encoder.labels.labels[label.index as int] matches Label::Pinned(target)
    &&& user.index + branch_distance(instrs[user.index as int]) == target.index
}

/// Updated instructions stay the same branches.
proof fn lemma_updated_branches_stay_branches(encoder: InstrEncoderView, n: nat)
    requires
        n <= encoder.labels.users.len(),
        users_wait_for_pinned_labels(encoder),
    ensures
        encoder.updated_branches(n).len() == encoder.instrs.len(),
        forall|i: int|
            0 <= i < encoder.instrs.len() ==> (#[trigger] encoder.updated_branches(n)[i])
                == encoder.instrs[i] || is_same_branch(
                encoder.instrs[i],
                encoder.updated_branches(n)[i],
            ),
    decreases n,
{
    if n > 0 {
        lemma_updated_branches_stay_branches(encoder, (n - 1) as nat);
        let before = encoder.updated_branches((n - 1) as nat);
        let user = encoder.labels.users[n - 1].user.index as int;
        assert(encoder.labels.users[n - 1].user.index < encoder.instrs.len());
        assert(before[user] == encoder.instrs[user] || is_same_branch(
            encoder.instrs[user],
            before[user],
        ));
    }
}

} // verus!
