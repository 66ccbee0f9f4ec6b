//! The register allocator.
//!
//! The indices from zero on are shared by three spaces. The registers of
//! function parameters and local variables come first, dynamically allocated
//! registers grow upwards behind them, and registers in storage space grow
//! downwards from the greatest index.
use crate::bytecode::branch::Instr;
use crate::bytecode::provider::TypedProvider;
use crate::bytecode::register::{Register, RegisterSpan};
use crate::error::{TranslationError, TranslationErrorInner};
use crate::stack::provider::TaggedProvider;
use vstd::prelude::*;

verus! {

/// The phases of register allocation.
#[derive(Debug, Clone, Copy, PartialEq, Eq, Structural)]
pub enum AllocPhase {
    /// Function parameters and local variables are registered.
    Init,
    /// Dynamic and storage registers are allocated.
    Alloc,
    /// The registers have been defragmented.
    Defrag,
}

/// A use of a register in storage space.
#[derive(Debug, Clone, Copy, PartialEq, Eq, Structural)]
pub struct StorageUser {
    /// The register.
    pub register: Register,
    /// The instruction that uses the register.
    pub user: Instr,
}

/// The error of an exhausted register space.
pub open spec fn too_many_registers() -> TranslationError {
    TranslationError::of(TranslationErrorInner::AllocatedTooManyRegisters)
}

/// Adjusts registers after register allocation has finished.
pub trait DefragRegister {
    /// What the adjustments are made to.
    type State;

    /// The current state.
    spec fn defrag_state(&self) -> Self::State;

    /// Whether the state knows the instruction `user`.
    spec fn knows_user(state: Self::State, user: Instr) -> bool;

    /// The state with the register `reg` of the instruction `user` replaced by
    /// `new_reg`.
    spec fn defragged(
        state: Self::State,
        user: Instr,
        reg: Register,
        new_reg: Register,
    ) -> Self::State;

    /// Replaces the register `reg` of the instruction `user` by `new_reg`.
    fn defrag_register(&mut self, user: Instr, reg: Register, new_reg: Register)
        requires
            Self::knows_user(old(self).defrag_state(), user),
        ensures
            final(self).defrag_state() == Self::defragged(
                old(self).defrag_state(),
                user,
                reg,
                new_reg,
            ),
    ;
}

/// What a register allocator has allocated.
#[verifier::ext_equal]
pub struct RegisterAllocView {
    /// The phase of the allocation.
    pub phase: AllocPhase,
    /// The number of registered function parameters and local variables.
    pub len_locals: int,
    /// The index of the next dynamic register.
    pub next_dynamic: int,
    /// The greatest `next_dynamic` so far.
    pub max_dynamic: int,
    /// The index of the next storage register.
    pub next_storage: int,
    /// The smallest `next_storage` so far.
    pub min_storage: int,
    /// The registered uses of storage registers.
    pub users: Seq<StorageUser>,
}

impl RegisterAllocView {
    /// The state of a new allocator.
    pub open spec fn initial() -> Self {
        RegisterAllocView {
            phase: AllocPhase::Init,
            len_locals: 0,
            next_dynamic: 0,
            max_dynamic: 0,
            next_storage: i16::MAX as int,
            min_storage: i16::MAX as int,
            users: Seq::empty(),
        }
    }

    /// The spaces follow one another and do not overlap.
    pub open spec fn valid(self) -> bool {
        &&& 0 <= self.len_locals <= self.next_dynamic <= self.max_dynamic <= self.min_storage
        &&& self.min_storage <= self.next_storage <= i16::MAX
        &&& self.phase is Init ==> self.max_dynamic == self.len_locals && self.min_storage
            == i16::MAX
        &&& forall|i: int|
            0 <= i < self.users.len() ==> self.is_storage((#[trigger] self.users[i]).register)
    }

    /// Whether no register was ever allocated in storage space.
    pub open spec fn no_storage(self) -> bool {
        self.min_storage == i16::MAX
    }

    /// Whether the register is in dynamic space.
    pub open spec fn is_dynamic(self, reg: Register) -> bool {
        self.len_locals <= reg.index < self.max_dynamic
    }

    /// Whether the register is in storage space.
    pub open spec fn is_storage(self, reg: Register) -> bool {
        self.min_storage < reg.index
    }

    /// The number of allocated registers.
    pub open spec fn len_registers(self) -> int {
        self.max_dynamic + (i16::MAX - self.min_storage)
    }

    /// Whether `amount` more local variables can be registered.
    pub open spec fn can_register_locals(self, amount: int) -> bool {
        self.len_locals + amount <= i16::MAX
    }

    /// The allocation with `amount` more local variables.
    pub open spec fn with_locals(self, amount: int) -> Self {
        let len_locals = self.len_locals + amount;
        RegisterAllocView {
            len_locals,
            next_dynamic: len_locals,
            max_dynamic: len_locals,
            ..self
        }
    }

    /// The allocation in another phase.
    pub open spec fn in_phase(self, phase: AllocPhase) -> Self {
        RegisterAllocView { phase, ..self }
    }

    /// Whether `n` more dynamic registers can be allocated.
    pub open spec fn can_push_dynamic(self, n: int) -> bool {
        self.next_dynamic + n <= self.min_storage
    }

    /// The allocation with `n` more dynamic registers.
    pub open spec fn push_dynamic(self, n: int) -> Self {
        let next_dynamic = self.next_dynamic + n;
        RegisterAllocView {
            next_dynamic,
            max_dynamic: if next_dynamic > self.max_dynamic {
                next_dynamic
            } else {
                self.max_dynamic
            },
            ..self
        }
    }

    /// The allocation with `n` dynamic registers less.
    pub open spec fn pop_dynamic(self, n: int) -> Self {
        RegisterAllocView { next_dynamic: self.next_dynamic - n, ..self }
    }

    /// Whether another storage register can be allocated.
    pub open spec fn can_push_storage(self) -> bool {
        self.max_dynamic < self.next_storage
    }

    /// The allocation with one more storage register.
    pub open spec fn push_storage(self) -> Self {
        let next_storage = self.next_storage - 1;
        RegisterAllocView {
            next_storage,
            min_storage: if next_storage < self.min_storage {
                next_storage
            } else {
                self.min_storage
            },
            ..self
        }
    }

    /// The allocation with one storage register less.
    pub open spec fn pop_storage(self) -> Self {
        RegisterAllocView { next_storage: self.next_storage + 1, ..self }
    }

    /// The allocation after `user` was registered for `reg`, which is recorded
    /// only for a storage register.
    pub open spec fn with_user(self, reg: Register, user: Instr) -> Self {
        if self.is_storage(reg) {
            RegisterAllocView { users: self.users.push(StorageUser { register: reg, user }), ..self }
        } else {
            self
        }
    }

    /// The register that a storage register becomes when the gap between the
    /// dynamic and the storage registers is closed.
    pub open spec fn compacted(self, reg: Register) -> Register {
        Register::at(reg.index - (self.min_storage + 1 - self.max_dynamic))
    }

    /// The state `state` after the first `n` registered users were adjusted.
    pub open spec fn defragged<S: DefragRegister>(self, state: S::State, n: nat) -> S::State
        decreases n,
    {
        if n == 0 {
            state
        } else {
            let storage_user = self.users[n - 1];
            S::defragged(
                self.defragged::<S>(state, (n - 1) as nat),
                storage_user.user,
                storage_user.register,
                self.compacted(storage_user.register),
            )
        }
    }

    /// The allocation after defragmentation.
    pub open spec fn defragmented(self) -> Self {
        RegisterAllocView { phase: AllocPhase::Defrag, users: Seq::empty(), ..self }
    }

    /// The allocation after a provider was popped from the stack.
    pub open spec fn pop_provider(self, provider: TaggedProvider) -> Self {
        match provider {
            TaggedProvider::Dynamic(_) => self.pop_dynamic(1),
            TaggedProvider::Storage(_) => self.pop_storage(),
            _ => self,
        }
    }
}

/// Defragmentation moves the storage registers right behind the dynamic
/// registers: they stay apart from one another and from all other registers,
/// and the indices in use are those below the number of registers.
pub proof fn lemma_defragmentation_is_compact(
    alloc: RegisterAllocView,
    a: Register,
    b: Register,
)
    requires
        alloc.valid(),
        alloc.is_storage(a),
        alloc.is_storage(b),
    ensures
        alloc.max_dynamic <= alloc.compacted(a).index < alloc.len_registers(),
        alloc.compacted(a) == alloc.compacted(b) ==> a == b,
        alloc.compacted(a).index - alloc.compacted(b).index == a.index - b.index,
{
}

/// Every index between the dynamic registers and the number of registers is
/// that of a storage register after defragmentation.
pub proof fn lemma_defragmentation_leaves_no_gap(alloc: RegisterAllocView, index: i16)
    requires
        alloc.valid(),
        alloc.max_dynamic <= index < alloc.len_registers(),
    ensures
        exists|reg: Register|
            alloc.is_storage(reg) && #[trigger] alloc.compacted(reg) == (Register { index }),
{
    let reg = Register::at(index + (alloc.min_storage + 1 - alloc.max_dynamic));
    assert(alloc.compacted(reg) == (Register { index }));
}

/// The register allocator.
#[derive(Debug)]
pub struct RegisterAlloc {
    /// The phase of the allocation.
    phase: AllocPhase,
    /// The number of registered function parameters and local variables.
    len_locals: u16,
    /// The index of the next dynamic register.
    next_dynamic: i16,
    /// The greatest `next_dynamic` so far.
    max_dynamic: i16,
    /// The index of the next storage register.
    next_storage: i16,
    /// The smallest `next_storage` so far.
    min_storage: i16,
    /// The registered uses of storage registers.
    users: Vec<StorageUser>,
}

impl View for RegisterAlloc {
    type V = RegisterAllocView;

    closed spec fn view(&self) -> RegisterAllocView {
        RegisterAllocView {
            phase: self.phase,
            len_locals: self.len_locals as int,
            next_dynamic: self.next_dynamic as int,
            max_dynamic: self.max_dynamic as int,
            next_storage: self.next_storage as int,
            min_storage: self.min_storage as int,
            users: self.users@,
        }
    }
}

impl Default for RegisterAlloc {
    fn default() -> (alloc: Self)
        ensures
            alloc.wf(),
            alloc@ == RegisterAllocView::initial(),
    {
        RegisterAlloc {
            phase: AllocPhase::Init,
            len_locals: 0,
            next_dynamic: 0,
            max_dynamic: 0,
            next_storage: i16::MAX,
            min_storage: i16::MAX,
            users: Vec::new(),
        }
    }
}

impl RegisterAlloc {
    /// The spaces are in order.
    pub open spec fn wf(&self) -> bool {
        self@.valid()
    }

    /// Makes the allocator as good as new.
    pub fn reset(&mut self)
        ensures
            final(self).wf(),
            final(self)@ == RegisterAllocView::initial(),
    {
        self.phase = AllocPhase::Init;
        self.len_locals = 0;
        self.next_dynamic = 0;
        self.max_dynamic = 0;
        self.next_storage = i16::MAX;
        self.min_storage = i16::MAX;
        self.users.clear();
    }

    /// Returns the number of registered function parameters and local variables.
    pub fn len_locals(&self) -> (len: u16)
        ensures
            len == self@.len_locals,
    {
        self.len_locals
    }

    /// Returns the number of allocated registers.
    pub fn len_registers(&self) -> (len: u16)
        requires
            self.wf(),
        ensures
            len == self@.len_registers(),
            len <= i16::MAX,
    {
        self.max_dynamic as u16 + (i16::MAX - self.min_storage) as u16
    }

    /// Registers an `amount` of function parameters or local variables.
    ///
    /// # Errors
    ///
    /// If too many registers have been registered. Nothing changes then.
    pub fn register_locals(&mut self, amount: u32) -> (result: Result<(), TranslationError>)
        requires
            old(self).wf(),
            old(self)@.phase is Init,
        ensures
            final(self).wf(),
            if old(self)@.can_register_locals(amount as int) {
                &&& result == Ok::<(), TranslationError>(())
                &&& final(self)@ == old(self)@.with_locals(amount as int)
            } else {
                &&& result == Err::<(), TranslationError>(too_many_registers())
                &&& final(self)@ == old(self)@
            },
    {
        if amount > (i16::MAX as u16 - self.len_locals) as u32 {
            return Err(TranslationError::new(TranslationErrorInner::AllocatedTooManyRegisters));
        }
        self.len_locals = self.len_locals + amount as u16;
        self.next_dynamic = self.len_locals as i16;
        self.max_dynamic = self.len_locals as i16;
        Ok(())
    }

    /// Finishes the registration of function parameters and local variables.
    pub fn finish_register_locals(&mut self)
        requires
            old(self).wf(),
            old(self)@.phase is Init,
        ensures
            final(self).wf(),
            final(self)@ == old(self)@.in_phase(AllocPhase::Alloc),
    {
        self.phase = AllocPhase::Alloc;
    }

    /// Whether the register is in dynamic space.
    pub fn is_dynamic(&self, reg: Register) -> (result: bool)
        requires
            self.wf(),
        ensures
            result == self@.is_dynamic(reg),
    {
        self.len_locals as i16 <= reg.index && reg.index < self.max_dynamic
    }

    /// Whether the register is in storage space.
    pub fn is_storage(&self, reg: Register) -> (result: bool)
        ensures
            result == self@.is_storage(reg),
    {
        self.min_storage < reg.index
    }

    /// Allocates a dynamic register.
    ///
    /// # Errors
    ///
    /// If too many registers have been registered. Nothing changes then.
    pub fn push_dynamic(&mut self) -> (result: Result<Register, TranslationError>)
        requires
            old(self).wf(),
            old(self)@.phase is Alloc,
        ensures
            final(self).wf(),
            if old(self)@.can_push_dynamic(1) {
                &&& result == Ok::<Register, TranslationError>(
                    Register::at(old(self)@.next_dynamic),
                )
                &&& final(self)@ == old(self)@.push_dynamic(1)
            } else {
                &&& result == Err::<Register, TranslationError>(too_many_registers())
                &&& final(self)@ == old(self)@
            },
    {
        match self.push_dynamic_n(1) {
            Ok(span) => Ok(span.head()),
            Err(error) => Err(error),
        }
    }

    /// Allocates `n` contiguous dynamic registers.
    ///
    /// # Errors
    ///
    /// If too many registers have been registered. Nothing changes then.
    pub fn push_dynamic_n(&mut self, n: usize) -> (result: Result<RegisterSpan, TranslationError>)
        requires
            old(self).wf(),
            old(self)@.phase is Alloc,
        ensures
            final(self).wf(),
            if old(self)@.can_push_dynamic(n as int) {
                &&& result == Ok::<RegisterSpan, TranslationError>(
                    (RegisterSpan { head: Register::at(old(self)@.next_dynamic) }),
                )
                &&& final(self)@ == old(self)@.push_dynamic(n as int)
            } else {
                &&& result == Err::<RegisterSpan, TranslationError>(too_many_registers())
                &&& final(self)@ == old(self)@
            },
    {
        if n > (self.min_storage - self.next_dynamic) as usize {
            return Err(TranslationError::new(TranslationErrorInner::AllocatedTooManyRegisters));
        }
        let span = RegisterSpan::new(Register::from_i16(self.next_dynamic));
        self.next_dynamic = self.next_dynamic + n as i16;
        if self.max_dynamic < self.next_dynamic {
            self.max_dynamic = self.next_dynamic;
        }
        Ok(span)
    }

    /// Frees the last `n` dynamic registers.
    pub fn pop_dynamic_n(&mut self, n: usize)
        requires
            old(self).wf(),
            n <= old(self)@.next_dynamic - old(self)@.len_locals,
        ensures
            final(self).wf(),
            final(self)@ == old(self)@.pop_dynamic(n as int),
    {
        self.next_dynamic = self.next_dynamic - n as i16;
    }

    /// Allocates a register in storage space.
    ///
    /// # Errors
    ///
    /// If too many registers have been registered. Nothing changes then.
    pub fn push_storage(&mut self) -> (result: Result<Register, TranslationError>)
        requires
            old(self).wf(),
            old(self)@.phase is Alloc,
        ensures
            final(self).wf(),
            if old(self)@.can_push_storage() {
                &&& result == Ok::<Register, TranslationError>(
                    Register::at(old(self)@.next_storage),
                )
                &&& final(self)@ == old(self)@.push_storage()
            } else {
                &&& result == Err::<Register, TranslationError>(too_many_registers())
                &&& final(self)@ == old(self)@
            },
    {
        if self.max_dynamic >= self.next_storage {
            return Err(TranslationError::new(TranslationErrorInner::AllocatedTooManyRegisters));
        }
        let register = Register::from_i16(self.next_storage);
        self.next_storage = self.next_storage - 1;
        if self.next_storage < self.min_storage {
            self.min_storage = self.next_storage;
        }
        Ok(register)
    }

    /// Frees the last storage register.
    pub fn pop_storage(&mut self)
        requires
            old(self).wf(),
            old(self)@.next_storage < i16::MAX,
        ensures
            final(self).wf(),
            final(self)@ == old(self)@.pop_storage(),
    {
        self.next_storage = self.next_storage + 1;
    }

    /// Frees the register of a provider that was popped from the stack, if it is
    /// an allocated one, and returns the provider without its tag.
    pub fn pop_provider(&mut self, provider: TaggedProvider) -> (result: TypedProvider)
        requires
            old(self).wf(),
            provider is Dynamic ==> old(self)@.len_locals < old(self)@.next_dynamic,
            provider is Storage ==> old(self)@.next_storage < i16::MAX,
        ensures
            final(self).wf(),
            final(self)@ == old(self)@.pop_provider(provider),
            result == provider.untagged(),
    {
        match provider {
            TaggedProvider::Dynamic(_) => self.pop_dynamic_n(1),
            TaggedProvider::Storage(_) => self.pop_storage(),
            _ => {},
        }
        provider.untag()
    }

    /// Registers the user of a register if the register is in storage space.
    pub fn register_user(&mut self, reg: Register, user: Instr)
        requires
            old(self).wf(),
        ensures
            final(self).wf(),
            final(self)@ == old(self)@.with_user(reg, user),
    {
        if self.is_storage(reg) {
            self.users.push(StorageUser { register: reg, user });
        }
    }

    /// Closes the gap between the dynamic and the storage registers: replaces the
    /// storage register of every registered user, in the order of registration.
    pub fn defrag<S: DefragRegister>(&mut self, state: &mut S)
        requires
            old(self).wf(),
            old(self)@.phase is Alloc,
            forall|n: nat|
                n < old(self)@.users.len() ==> S::knows_user(
                    #[trigger] old(self)@.defragged::<S>(old(state).defrag_state(), n),
                    old(self)@.users[n as int].user,
                ),
        ensures
            final(self).wf(),
            final(self)@ == old(self)@.defragmented(),
            final(state).defrag_state() == old(self)@.defragged::<S>(
                old(state).defrag_state(),
                old(self)@.users.len(),
            ),
    {
        let mut i: usize = 0;
        let gap: i16 = self.min_storage - self.max_dynamic;
        while i < self.users.len()
            invariant
                0 <= i <= self.users.len(),
                self@ == old(self)@,
                self@.valid(),
                gap == self@.min_storage - self@.max_dynamic,
                state.defrag_state() == old(self)@.defragged::<S>(
                    old(state).defrag_state(),
                    i as nat,
                ),
                forall|n: nat|
                    n < old(self)@.users.len() ==> S::knows_user(
                        #[trigger] old(self)@.defragged::<S>(old(state).defrag_state(), n),
                        old(self)@.users[n as int].user,
                    ),
            decreases self.users.len() - i,
        {
            let storage_user = self.users[i];
            assert(self@.users[i as int] == storage_user);
            let register = storage_user.register;
            let new_register = Register::from_i16(register.index - gap - 1);
            state.defrag_register(storage_user.user, register, new_register);
            i = i + 1;
        }
        self.phase = AllocPhase::Defrag;
        self.users.clear();
    }
}

} // verus!
