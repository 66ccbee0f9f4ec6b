//! Labels of branch targets.
use crate::bytecode::branch::{BranchOffset, Instr};
use crate::error::TranslationError;
use vstd::prelude::*;

verus! {

/// A label.
#[derive(Debug, Clone, Copy, PartialEq, Eq, Structural)]
pub enum Label {
    /// The label stands for an instruction.
    Pinned(Instr),
    /// It is not known yet for which instruction the label stands.
    Unpinned,
}

/// A reference to a label.
#[derive(Debug, Clone, Copy, PartialEq, Eq, Structural)]
pub struct LabelRef {
    /// The index of the label.
    pub index: u32,
}

/// A use of a label that was not pinned at the time.
#[derive(Debug, Clone, Copy, PartialEq, Eq, Structural)]
pub struct LabelUser {
    /// The label.
    pub label: LabelRef,
    /// The instruction that branches to the label.
    pub user: Instr,
}

/// An error of the label registry.
#[derive(Debug, Clone, Copy, PartialEq, Eq, Structural)]
pub enum LabelError {
    /// The label is already pinned.
    AlreadyPinned {
        /// The label.
        label: LabelRef,
        /// The instruction that it is pinned to.
        pinned_to: Instr,
    },
}

/// The labels of a function and their unresolved users.
#[verifier::ext_equal]
pub struct LabelRegistryView {
    /// The labels.
    pub labels: Seq<Label>,
    /// The users that wait for their label to be pinned.
    pub users: Seq<LabelUser>,
}

impl LabelRegistryView {
    /// A registry without labels and users.
    pub open spec fn initial() -> Self {
        LabelRegistryView { labels: Seq::empty(), users: Seq::empty() }
    }

    /// Whether the registry has the label.
    pub open spec fn has(self, label: LabelRef) -> bool {
        label.index < self.labels.len()
    }

    /// The label behind the reference.
    pub open spec fn label(self, label: LabelRef) -> Label
        recommends
            self.has(label),
    {
        self.labels[label.index as int]
    }

    /// Whether the label is pinned.
    pub open spec fn is_pinned(self, label: LabelRef) -> bool {
        self.has(label) && self.label(label) is Pinned
    }

    /// The instruction that the label is pinned to.
    pub open spec fn target(self, label: LabelRef) -> Instr
        recommends
            self.is_pinned(label),
    {
        self.label(label)->Pinned_0
    }

    /// The registry with a new label.
    pub open spec fn with_new_label(self) -> Self {
        LabelRegistryView { labels: self.labels.push(Label::Unpinned), ..self }
    }

    /// The registry with the label pinned to the instruction, unless it is pinned
    /// already.
    pub open spec fn pinned(self, label: LabelRef, instr: Instr) -> Self {
        if self.label(label) is Pinned {
            self
        } else {
            LabelRegistryView {
                labels: self.labels.update(label.index as int, Label::Pinned(instr)),
                ..self
            }
        }
    }

    /// The registry with another user of the label.
    pub open spec fn with_user(self, label: LabelRef, user: Instr) -> Self {
        LabelRegistryView { users: self.users.push(LabelUser { label, user }), ..self }
    }

    /// Resolves the label for the instruction `user`: the offset to the pinned
    /// instruction, or an unknown offset and a registered user.
    pub open spec fn try_resolve(self, label: LabelRef, user: Instr) -> (Self, Result<
        BranchOffset,
        TranslationError,
    >) {
        match self.label(label) {
            Label::Pinned(target) => (self, BranchOffset::between(user, target)),
            Label::Unpinned => (self.with_user(label, user), Ok(BranchOffset::unknown())),
        }
    }

    /// The branch offset of a registered user.
    pub open spec fn user_offset(self, n: int) -> Result<BranchOffset, TranslationError> {
        BranchOffset::between(self.users[n].user, self.target(self.users[n].label))
    }
}

/// The registry of the labels of a function.
#[derive(Debug)]
pub struct LabelRegistry {
    /// The labels.
    labels: Vec<Label>,
    /// The users that wait for their label to be pinned.
    users: Vec<LabelUser>,
}

impl View for LabelRegistry {
    type V = LabelRegistryView;

    closed spec fn view(&self) -> LabelRegistryView {
        LabelRegistryView { labels: self.labels@, users: self.users@ }
    }
}

impl Default for LabelRegistry {
    fn default() -> (registry: Self)
        ensures
            registry@ == LabelRegistryView::initial(),
    {
        LabelRegistry { labels: Vec::new(), users: Vec::new() }
    }
}

impl LabelRegistry {
    /// Removes all labels and users.
    pub fn reset(&mut self)
        ensures
            final(self)@ == LabelRegistryView::initial(),
    {
        self.labels.clear();
        self.users.clear();
    }

    /// Creates a new label that is not pinned.
    pub fn new_label(&mut self) -> (label: LabelRef)
        requires
            old(self)@.labels.len() <= u32::MAX,
        ensures
            label.index == old(self)@.labels.len(),
            final(self)@ == old(self)@.with_new_label(),
    {
        let index: usize = self.labels.len();
        self.labels.push(Label::Unpinned);
        LabelRef { index: index as u32 }
    }

    /// Pins the label to the instruction.
    ///
    /// # Errors
    ///
    /// If the label is already pinned.
    pub fn pin_label(&mut self, label: LabelRef, instr: Instr) -> (result: Result<(), LabelError>)
        requires
            old(self)@.has(label),
        ensures
            final(self)@ == old(self)@.pinned(label, instr),
            result == (match old(self)@.label(label) {
                Label::Pinned(pinned_to) => Err(LabelError::AlreadyPinned { label, pinned_to }),
                Label::Unpinned => Ok(()),
            }),
    {
        let index: usize = label.index as usize;
        match self.labels[index] {
            Label::Pinned(pinned_to) => Err(LabelError::AlreadyPinned { label, pinned_to }),
            Label::Unpinned => {
                self.labels.set(index, Label::Pinned(instr));
                Ok(())
            },
        }
    }

    /// Pins the label to the instruction if it is not pinned yet.
    pub fn try_pin_label(&mut self, label: LabelRef, instr: Instr)
        requires
            old(self)@.has(label),
        ensures
            final(self)@ == old(self)@.pinned(label, instr),
    {
        let index: usize = label.index as usize;
        if let Label::Unpinned = self.labels[index] {
            self.labels.set(index, Label::Pinned(instr));
        }
    }

    /// Tries to resolve the label for the instruction `user`.
    ///
    /// Returns an uninitialized offset if the label is not pinned yet, and
    /// registers the user then.
    ///
    /// # Errors
    ///
    /// If the branch offset is out of bounds.
    pub fn try_resolve_label(&mut self, label: LabelRef, user: Instr) -> (result: Result<
        BranchOffset,
        TranslationError,
    >)
        requires
            old(self)@.has(label),
        ensures
            final(self)@ == old(self)@.try_resolve(label, user).0,
            result == old(self)@.try_resolve(label, user).1,
    {
        match self.labels[label.index as usize] {
            Label::Pinned(target) => BranchOffset::from_src_to_dst(user, target),
            Label::Unpinned => {
                self.users.push(LabelUser { label, user });
                Ok(BranchOffset::uninit())
            },
        }
    }

    /// Returns the number of registered users.
    pub fn len_users(&self) -> (len: usize)
        ensures
            len == self@.users.len(),
    {
        self.users.len()
    }

    /// Returns a registered user with its branch offset.
    ///
    /// # Errors
    ///
    /// If the branch offset is out of bounds.
    pub fn resolved_user(&self, n: usize) -> (result: (
        Instr,
        Result<BranchOffset, TranslationError>,
    ))
        requires
            n < self@.users.len(),
            self@.is_pinned(self@.users[n as int].label),
        ensures
            result.0 == self@.users[n as int].user,
            result.1 == self@.user_offset(n as int),
    {
        let label_user = self.users[n];
        assert(self@.users[n as int] == label_user);
        let user = label_user.user;
        match self.labels[label_user.label.index as usize] {
            Label::Pinned(target) => (user, BranchOffset::from_src_to_dst(user, target)),
            Label::Unpinned => (user, Ok(BranchOffset::uninit())),
        }
    }
}

/// A pinned label stays pinned to its instruction, whatever is pinned later.
pub proof fn lemma_pinned_label_stays(
    registry: LabelRegistryView,
    label: LabelRef,
    other: LabelRef,
    instr: Instr,
)
    requires
        registry.is_pinned(label),
        registry.has(other),
    ensures
        registry.pinned(other, instr).is_pinned(label),
        registry.pinned(other, instr).target(label) == registry.target(label),
        other == label ==> registry.pinned(other, instr) == registry,
{
}

/// What the operations of a label registry, but for resetting it, are made up of.
pub enum LabelStep {
    /// Creates a new label.
    NewLabel,
    /// Pins a label to an instruction, unless it is pinned already.
    Pin { label: LabelRef, instr: Instr },
    /// Resolves a label for an instruction.
    Resolve { label: LabelRef, user: Instr },
}

/// The registry after a step.
pub open spec fn after_label_step(
    registry: LabelRegistryView,
    step: LabelStep,
) -> LabelRegistryView {
    match step {
        LabelStep::NewLabel => registry.with_new_label(),
        LabelStep::Pin { label, instr } => registry.pinned(label, instr),
        LabelStep::Resolve { label, user } => registry.try_resolve(label, user).0,
    }
}

/// The registry after any number of steps.
pub open spec fn after_label_steps(
    registry: LabelRegistryView,
    steps: Seq<LabelStep>,
) -> LabelRegistryView
    decreases steps.len(),
{
    if steps.len() == 0 {
        registry
    } else {
        after_label_step(after_label_steps(registry, steps.drop_last()), steps.last())
    }
}

/// Registered users are all remembered, in their order, whatever is done with the
/// registry short of resetting it.
pub proof fn lemma_users_are_remembered(registry: LabelRegistryView, steps: Seq<LabelStep>)
    ensures
        registry.users.is_prefix_of(after_label_steps(registry, steps).users),
    decreases steps.len(),
{
    if steps.len() > 0 {
        lemma_users_are_remembered(registry, steps.drop_last());
    }
}

/// Resolving a label that is not pinned yet never fails: it gives an unknown
/// offset, and registers the instruction behind the users that wait already. The
/// instruction stays registered whatever is done with the registry afterwards,
/// short of resetting it.
pub proof fn lemma_unpinned_label_is_deferred(
    registry: LabelRegistryView,
    label: LabelRef,
    user: Instr,
    steps: Seq<LabelStep>,
)
    requires
        registry.has(label),
        registry.label(label) is Unpinned,
    ensures
        ({
            let (deferred, result) = registry.try_resolve(label, user);
            let later = after_label_steps(deferred, steps);
            let place = registry.users.len() as int;
            &&& result == Ok::<BranchOffset, TranslationError>(BranchOffset::unknown())
            &&& deferred.labels == registry.labels
            &&& deferred.users == registry.users.push(LabelUser { label, user })
            &&& place < later.users.len()
            &&& later.users[place] == (LabelUser { label, user })
            &&& registry.users.is_prefix_of(later.users)
        }),
{
    let deferred = registry.try_resolve(label, user).0;
    let later = after_label_steps(deferred, steps);
    lemma_users_are_remembered(deferred, steps);
    assert(deferred.users[registry.users.len() as int] == later.users[registry.users.len() as int]);
}

} // verus!
