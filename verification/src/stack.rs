//! The value stack of the translation.
pub mod consts;
pub mod laws;
pub mod model;
pub mod provider;
pub mod register_alloc;

use crate::bytecode::branch::Instr;
use crate::bytecode::provider::{Provider, TypedProvider};
use crate::bytecode::register::{Register, RegisterSpan};
use crate::error::{TranslationError, TranslationErrorInner};
use crate::func_type::FuncType;
use crate::stack::consts::{FuncLocalConsts, FuncLocalConstsIter};
use crate::stack::model::{
    intern_all, lemma_intern_all_stops, lemma_push_all_stops, lemma_pushed_dynamic_valid,
    lemma_truncated_twice, lemma_truncated_valid, tagged_dynamic, ValueStackView,
};
use crate::stack::provider::{count_dynamic, untagged_all, ProviderStack, TaggedProvider};
use crate::stack::register_alloc::{too_many_registers, AllocPhase, DefragRegister, RegisterAlloc};
use crate::value::{TypedValue, UntypedValue};
use vstd::prelude::*;

verus! {

/// The value stack.
#[derive(Debug)]
pub struct ValueStack {
    /// The providers on the stack.
    providers: ProviderStack,
    /// The registers.
    reg_alloc: RegisterAlloc,
    /// The function local constant values.
    consts: FuncLocalConsts,
}

impl View for ValueStack {
    type V = ValueStackView;

    closed spec fn view(&self) -> ValueStackView {
        ValueStackView {
            providers: self.providers@,
            registers: self.reg_alloc@,
            consts: self.consts@,
        }
    }
}

impl Default for ValueStack {
    fn default() -> (stack: Self)
        ensures
            stack.wf(),
            stack@ == ValueStackView::initial(),
    {
        ValueStack {
            providers: ProviderStack::default(),
            reg_alloc: RegisterAlloc::default(),
            consts: FuncLocalConsts::default(),
        }
    }
}

/// Reverses a vector in place.
fn reverse_in_place<T: Copy>(items: &mut Vec<T>)
    ensures
        final(items)@ == old(items)@.reverse(),
{
    let len: usize = items.len();
    let mut i: usize = 0;
    while i < len / 2
        invariant
            len == items.len() == old(items).len(),
            0 <= i <= len / 2,
            forall|j: int| 0 <= j < i ==> items@[j] == old(items)@[len - 1 - j],
            forall|j: int| len - i <= j < len ==> items@[j] == old(items)@[len - 1 - j],
            forall|j: int| i <= j < len - i ==> items@[j] == old(items)@[j],
        decreases len / 2 - i,
    {
        let low = items[i];
        let high = items[len - 1 - i];
        items.set(i, high);
        items.set(len - 1 - i, low);
        i = i + 1;
    }
    assert(items@ =~= old(items)@.reverse());
}

impl ValueStack {
    /// The lookup structures are in order.
    pub closed spec fn inv(&self) -> bool {
        self.consts.inv()
    }

    /// The value stack is a valid one.
    pub open spec fn wf(&self) -> bool {
        &&& self.inv()
        &&& self@.valid()
    }

    /// Resets the value stack.
    pub fn reset(&mut self)
        ensures
            final(self).wf(),
            final(self)@ == ValueStackView::initial(),
    {
        self.providers.reset();
        self.reg_alloc.reset();
        self.consts.reset();
    }

    /// Pops providers until the value stack has the given `height`.
    pub fn trunc(&mut self, height: usize)
        requires
            old(self).wf(),
            height <= old(self)@.height(),
        ensures
            final(self).wf(),
            final(self)@ == old(self)@.truncated(height as int),
    {
        assert(self@.providers.take(self@.height() as int) =~= self@.providers);
        while self.height() != height
            invariant
                self.wf(),
                old(self).wf(),
                height <= self@.height() <= old(self)@.height(),
                self@ == old(self)@.truncated(self@.height() as int),
            decreases self@.height(),
        {
            proof {
                lemma_truncated_twice(
                    old(self)@,
                    self@.height() as int,
                    self@.height() - 1,
                );
            }
            self.pop();
        }
    }

    /// Returns the number of providers on the value stack.
    pub fn height(&self) -> (height: usize)
        ensures
            height == self@.height(),
    {
        self.providers.len()
    }

    /// Returns the number of registers that the function needs: those for its
    /// constant values and those that were allocated.
    pub fn len_registers(&self) -> (len: u16)
        requires
            self.wf(),
        ensures
            len == self@.len_registers(),
    {
        // Both operands are at most `i16::MAX`.
        self.consts.len_consts() + self.reg_alloc.len_registers()
    }

    /// Registers an `amount` of function parameters or local variables.
    ///
    /// # Errors
    ///
    /// If too many registers have been registered. Nothing changes then.
    pub fn register_locals(&mut self, amount: u32) -> (result: Result<(), TranslationError>)
        requires
            old(self).wf(),
            old(self)@.registers.phase is Init,
        ensures
            final(self).wf(),
            if old(self)@.registers.can_register_locals(amount as int) {
                &&& result == Ok::<(), TranslationError>(())
                &&& final(self)@ == (ValueStackView {
                    registers: old(self)@.registers.with_locals(amount as int),
                    ..old(self)@
                })
            } else {
                &&& result == Err::<(), TranslationError>(too_many_registers())
                &&& final(self)@ == old(self)@
            },
    {
        self.reg_alloc.register_locals(amount)
    }

    /// Finishes the registration of local variables.
    ///
    /// No local variable can be registered any more after this operation, and
    /// dynamic registers can be pushed and popped.
    pub fn finish_register_locals(&mut self)
        requires
            old(self).wf(),
            old(self)@.registers.phase is Init,
        ensures
            final(self).wf(),
            final(self)@ == (ValueStackView {
                registers: old(self)@.registers.in_phase(AllocPhase::Alloc),
                ..old(self)@
            }),
    {
        self.reg_alloc.finish_register_locals()
    }

    /// Allocates a function local constant value and returns its register.
    ///
    /// Constant values are deduplicated and share their register.
    ///
    /// # Errors
    ///
    /// If too many constant values are allocated. Nothing changes then.
    pub fn alloc_const<T>(&mut self, value: T) -> (result: Result<Register, TranslationError>) where
        T: Into<UntypedValue>,

        requires
            old(self).wf(),
        ensures
            final(self).wf(),
            exists|untyped: UntypedValue|
                #![trigger old(self)@.alloc_const(untyped)]
                {
                    &&& call_ensures(<T as Into<UntypedValue>>::into, (value,), untyped)
                    &&& final(self)@ == old(self)@.alloc_const(untyped).0
                    &&& result == old(self)@.alloc_const(untyped).1
                },
    {
        let untyped: UntypedValue = value.into();
        let result = self.consts.alloc_const(untyped);
        assert(self@ =~= old(self)@.alloc_const(untyped).0);
        result
    }

    /// Returns the function local constant values in reversed allocation order.
    pub fn func_local_consts(&self) -> (iter: FuncLocalConstsIter<'_>)
        ensures
            iter.wf(),
            iter@ == self@.consts.reverse(),
    {
        self.consts.iter()
    }

    /// Pushes a constant value.
    pub fn push_const<T>(&mut self, value: T) where T: Into<TypedValue>,
        requires
            old(self).wf(),
        ensures
            final(self).wf(),
            exists|typed: TypedValue|
                #![trigger old(self)@.pushed(TaggedProvider::Const(typed))]
                {
                    &&& call_ensures(<T as Into<TypedValue>>::into, (value,), typed)
                    &&& final(self)@ == old(self)@.pushed(TaggedProvider::Const(typed))
                },
    {
        let typed: TypedValue = value.into();
        self.providers.push_const(typed);
        assert(self@.providers.drop_last() =~= old(self)@.providers);
        assert(self@ =~= old(self)@.pushed(TaggedProvider::Const(typed)));
    }

    /// Pushes the given provider.
    ///
    /// # Errors
    ///
    /// If too many registers have been registered. Nothing changes then.
    pub fn push_provider(&mut self, provider: TypedProvider) -> (result: Result<
        (),
        TranslationError,
    >)
        requires
            old(self).wf(),
            old(self)@.can_take(provider),
        ensures
            final(self).wf(),
            final(self)@ == old(self)@.push_provider(provider).0,
            result == old(self)@.push_provider(provider).1,
    {
        match provider {
            Provider::Register(register) => self.push_register(register),
            Provider::Const(value) => {
                self.push_const(value);
                Ok(())
            },
        }
    }

    /// Pushes the given register.
    ///
    /// # Errors
    ///
    /// If too many registers have been registered. Nothing changes then.
    pub fn push_register(&mut self, reg: Register) -> (result: Result<(), TranslationError>)
        requires
            old(self).wf(),
            old(self)@.can_take(TypedProvider::Register(reg)),
        ensures
            final(self).wf(),
            final(self)@ == old(self)@.push_register(reg).0,
            result == old(self)@.push_register(reg).1,
    {
        if self.reg_alloc.is_dynamic(reg) {
            if let Err(error) = self.reg_alloc.push_dynamic() {
                return Err(error);
            }
            self.providers.push_dynamic(reg);
            assert(self@.providers.drop_last() =~= old(self)@.providers);
            return Ok(());
        }
        self.providers.push_local(reg);
        assert(self@.providers.drop_last() =~= old(self)@.providers);
        Ok(())
    }

    /// Pushes the register of a function parameter or local variable and returns
    /// it.
    ///
    /// # Errors
    ///
    /// If the index is not less than the number of local variables. Nothing changes
    /// then.
    pub fn push_local(&mut self, local_index: u32) -> (result: Result<Register, TranslationError>)
        requires
            old(self).wf(),
        ensures
            final(self).wf(),
            if local_index < old(self)@.registers.len_locals {
                let register = Register::at(local_index as int);
                &&& result == Ok::<Register, TranslationError>(register)
                &&& final(self)@ == old(self)@.pushed(TaggedProvider::Local(register))
            } else {
                &&& result == Err::<Register, TranslationError>(
                    TranslationError::of(TranslationErrorInner::RegisterOutOfBounds),
                )
                &&& final(self)@ == old(self)@
            },
    {
        if local_index >= self.reg_alloc.len_locals() as u32 {
            return Err(TranslationError::new(TranslationErrorInner::RegisterOutOfBounds));
        }
        let reg = Register::from_i16(local_index as i16);
        self.providers.push_local(reg);
        assert(self@.providers.drop_last() =~= old(self)@.providers);
        Ok(reg)
    }

    /// Pushes a dynamically allocated register and returns it.
    ///
    /// # Errors
    ///
    /// If too many registers have been registered. Nothing changes then.
    pub fn push_dynamic(&mut self) -> (result: Result<Register, TranslationError>)
        requires
            old(self).wf(),
            old(self)@.registers.phase is Alloc,
        ensures
            final(self).wf(),
            if old(self)@.registers.can_push_dynamic(1) {
                let register = Register::at(old(self)@.registers.next_dynamic);
                &&& result == Ok::<Register, TranslationError>(register)
                &&& final(self)@ == old(self)@.pushed(TaggedProvider::Dynamic(register))
            } else {
                &&& result == Err::<Register, TranslationError>(too_many_registers())
                &&& final(self)@ == old(self)@
            },
    {
        match self.reg_alloc.push_dynamic() {
            Ok(reg) => {
                self.providers.push_dynamic(reg);
                assert(self@.providers.drop_last() =~= old(self)@.providers);
                Ok(reg)
            },
            Err(error) => Err(error),
        }
    }

    /// Pops the top-most provider.
    pub fn pop(&mut self) -> (provider: TypedProvider)
        requires
            old(self).wf(),
            old(self)@.height() >= 1,
        ensures
            final(self).wf(),
            final(self)@ == old(self)@.truncated(old(self)@.height() - 1),
            provider == old(self)@.providers.last().untagged(),
    {
        proof {
            let providers = self@.providers;
            let height = providers.len() - 1;
            lemma_truncated_valid(self@, height);
            assert(providers.take(height) =~= providers.drop_last());
            assert(providers.skip(height) =~= seq![providers.last()]);
            assert(seq![providers.last()].drop_last() =~= Seq::<TaggedProvider>::empty());
            assert(count_dynamic(seq![providers.last()]) == (if providers.last() is Dynamic {
                1int
            } else {
                0int
            })) by {
                reveal_with_fuel(count_dynamic, 2);
            }
        }
        let provider = self.providers.pop();
        self.reg_alloc.pop_provider(provider)
    }

    /// Pops the top-most provider and turns it into a register.
    ///
    /// A constant value is allocated as function local constant value.
    ///
    /// # Errors
    ///
    /// If too many constant values are allocated. The provider is popped then.
    pub fn pop_as_register(&mut self) -> (result: Result<Register, TranslationError>)
        requires
            old(self).wf(),
            old(self)@.height() >= 1,
        ensures
            final(self).wf(),
            final(self)@ == old(self)@.pop_as_register().0,
            result == old(self)@.pop_as_register().1,
    {
        match self.pop() {
            Provider::Register(register) => Ok(register),
            Provider::Const(value) => self.alloc_const(value),
        }
    }

    /// Returns the top-most provider.
    pub fn peek(&self) -> (provider: TypedProvider)
        requires
            self@.height() >= 1,
        ensures
            provider == self@.providers.last().untagged(),
    {
        self.providers.peek().untag()
    }

    /// Pops the two top-most providers. The top-most one comes last.
    pub fn pop2(&mut self) -> (result: (TypedProvider, TypedProvider))
        requires
            old(self).wf(),
            old(self)@.height() >= 2,
        ensures
            final(self).wf(),
            final(self)@ == old(self)@.truncated(old(self)@.height() - 2),
            seq![result.0, result.1] == old(self)@.top(2),
    {
        proof {
            lemma_truncated_twice(
                self@,
                self@.height() - 1,
                self@.height() - 2,
            );
        }
        let rhs = self.pop();
        let lhs = self.pop();
        (lhs, rhs)
    }

    /// Pops the two top-most providers and turns them into registers. The top-most
    /// one comes last.
    ///
    /// # Errors
    ///
    /// If too many constant values are allocated. The providers up to the one that
    /// failed are popped then.
    pub fn pop2_as_registers(&mut self) -> (result: Result<(Register, Register), TranslationError>)
        requires
            old(self).wf(),
            old(self)@.height() >= 2,
        ensures
            final(self).wf(),
            final(self)@ == old(self)@.pop2_as_registers().0,
            result == old(self)@.pop2_as_registers().1,
    {
        let rhs = match self.pop_as_register() {
            Ok(register) => register,
            Err(error) => {
                return Err(error);
            },
        };
        let lhs = match self.pop_as_register() {
            Ok(register) => register,
            Err(error) => {
                return Err(error);
            },
        };
        Ok((lhs, rhs))
    }

    /// Pops the three top-most providers. The top-most one comes last.
    pub fn pop3(&mut self) -> (result: (TypedProvider, TypedProvider, TypedProvider))
        requires
            old(self).wf(),
            old(self)@.height() >= 3,
        ensures
            final(self).wf(),
            final(self)@ == old(self)@.truncated(old(self)@.height() - 3),
            seq![result.0, result.1, result.2] == old(self)@.top(3),
    {
        proof {
            lemma_truncated_twice(
                self@,
                self@.height() - 2,
                self@.height() - 3,
            );
        }
        let (v1, v2) = self.pop2();
        assert(old(self)@.top(2)[0] == v1 && old(self)@.top(2)[1] == v2);
        let v0 = self.pop();
        (v0, v1, v2)
    }

    /// Pops the three top-most providers and turns them into registers. The
    /// top-most one comes last.
    ///
    /// # Errors
    ///
    /// If too many constant values are allocated. The providers up to the one that
    /// failed are popped then.
    pub fn pop3_as_registers(&mut self) -> (result: Result<
        (Register, Register, Register),
        TranslationError,
    >)
        requires
            old(self).wf(),
            old(self)@.height() >= 3,
        ensures
            final(self).wf(),
            final(self)@ == old(self)@.pop3_as_registers().0,
            result == old(self)@.pop3_as_registers().1,
    {
        let (v1, v2) = match self.pop2_as_registers() {
            Ok(registers) => registers,
            Err(error) => {
                return Err(error);
            },
        };
        let v0 = match self.pop_as_register() {
            Ok(register) => register,
            Err(error) => {
                return Err(error);
            },
        };
        Ok((v0, v1, v2))
    }

    /// Pops the `n` top-most providers and stores them in `result`.
    ///
    /// The top-most provider is the last item of `result`, which is cleared first.
    pub fn pop_n(&mut self, n: usize, result: &mut Vec<TypedProvider>)
        requires
            old(self).wf(),
            n <= old(self)@.height(),
        ensures
            final(self).wf(),
            final(self)@ == old(self)@.truncated(old(self)@.height() - n),
            final(result)@ == old(self)@.top(n as int),
    {
        let ghost stack = self@;
        result.clear();
        let mut i: usize = 0;
        assert(stack.providers.take(stack.height() as int) =~= stack.providers);
        while i < n
            invariant
                0 <= i <= n <= stack.height(),
                self.wf(),
                stack.valid(),
                self@ == stack.truncated(stack.height() - i),
                result@ == stack.top(i as int).reverse(),
            decreases n - i,
        {
            proof {
                lemma_truncated_twice(
                    stack,
                    stack.height() - i,
                    stack.height() - i - 1,
                );
            }
            let provider = self.pop();
            result.push(provider);
            i = i + 1;
            assert(result@ =~= stack.top(i as int).reverse());
        }
        reverse_in_place(result);
        assert(result@ =~= stack.top(n as int));
    }

    /// Returns the `n` top-most providers in `result`.
    ///
    /// The top-most provider is the last item of `result`, which is cleared first.
    pub fn peek_n(&mut self, n: usize, result: &mut Vec<TypedProvider>)
        requires
            n <= old(self)@.height(),
        ensures
            *final(self) == *old(self),
            final(result)@ == old(self)@.top(n as int),
    {
        result.clear();
        let peeked = self.providers.peek_n(n);
        let mut i: usize = 0;
        while i < peeked.len()
            invariant
                0 <= i <= peeked.len(),
                result@ == untagged_all(peeked@).take(i as int),
            decreases peeked.len() - i,
        {
            let provider = peeked[i].untag();
            result.push(provider);
            i = i + 1;
            assert(result@ =~= untagged_all(peeked@).take(i as int));
        }
        assert(result@ =~= self@.top(n as int));
    }

    /// Adjusts the value stack for a call of a function of the given type: pops
    /// the call parameters into `provider_buffer` and pushes dynamic registers for
    /// the results, whose span is returned.
    ///
    /// `provider_buffer` is cleared first.
    ///
    /// # Errors
    ///
    /// - If not enough call parameters are on the value stack, which is unchanged
    ///   then.
    /// - If too many registers are registered as call results. The parameters are
    ///   popped then.
    pub fn adjust_for_call(
        &mut self,
        func_type: &FuncType,
        provider_buffer: &mut Vec<TypedProvider>,
    ) -> (result: Result<RegisterSpan, TranslationError>)
        requires
            old(self).wf(),
            func_type.params.len() <= old(self)@.height() ==> old(self)@.registers.phase is Alloc,
        ensures
            final(self).wf(),
            ({
                let params = func_type.params@.len();
                let results = func_type.results@.len();
                let popped = old(self)@.truncated(old(self)@.height() - params);
                if params > old(self)@.height() {
                    &&& result == Err::<RegisterSpan, TranslationError>(
                        TranslationError::of(TranslationErrorInner::TooFewProviders),
                    )
                    &&& final(self)@ == old(self)@
                    &&& final(provider_buffer)@ == Seq::<TypedProvider>::empty()
                } else if !popped.registers.can_push_dynamic(results as int) {
                    &&& result == Err::<RegisterSpan, TranslationError>(too_many_registers())
                    &&& final(self)@ == popped
                    &&& final(provider_buffer)@ == old(self)@.top(params as int)
                } else {
                    &&& result == Ok::<RegisterSpan, TranslationError>(
                        (RegisterSpan { head: Register::at(popped.registers.next_dynamic) }),
                    )
                    &&& final(self)@ == popped.pushed_dynamic(results)
                    &&& final(provider_buffer)@ == old(self)@.top(params as int)
                }
            }),
    {
        let (params, results) = func_type.params_results();
        if params.len() > self.height() {
            provider_buffer.clear();
            return Err(TranslationError::new(TranslationErrorInner::TooFewProviders));
        }
        self.pop_n(params.len(), provider_buffer);
        self.push_dynamic_n(results.len())
    }

    /// Pops the `n` top-most providers and turns them into registers.
    ///
    /// Constant values are allocated as function local constant values, from the
    /// lowest provider to the top-most one. The providers are stored in
    /// `provider_buffer` and the registers in `params_buffer`, which are both
    /// cleared first. The top-most provider comes last.
    ///
    /// # Errors
    ///
    /// - If there are too few providers on the value stack, which is unchanged
    ///   then.
    /// - If too many constant values are allocated. The providers are popped then,
    ///   and `params_buffer` holds the registers of those below the one that
    ///   failed.
    pub fn pop_n_as_registers(
        &mut self,
        n: usize,
        provider_buffer: &mut Vec<TypedProvider>,
        params_buffer: &mut Vec<Register>,
    ) -> (result: Result<(), TranslationError>)
        requires
            old(self).wf(),
        ensures
            final(self).wf(),
            if n > old(self)@.height() {
                &&& result == Err::<(), TranslationError>(
                    TranslationError::of(TranslationErrorInner::TooFewProviders),
                )
                &&& final(self)@ == old(self)@
                &&& final(provider_buffer)@ == Seq::<TypedProvider>::empty()
                &&& final(params_buffer)@ == Seq::<Register>::empty()
            } else {
                let interned = intern_all(old(self)@.consts, old(self)@.top(n as int));
                &&& result == interned.result()
                &&& final(self)@ == old(self)@.truncated(old(self)@.height() - n).with_consts(
                    interned.consts,
                )
                &&& final(provider_buffer)@ == old(self)@.top(n as int)
                &&& final(params_buffer)@ == interned.registers
            },
    {
        if n > self.height() {
            provider_buffer.clear();
            params_buffer.clear();
            return Err(TranslationError::new(TranslationErrorInner::TooFewProviders));
        }
        self.pop_n(n, provider_buffer);
        self.intern_into(provider_buffer.as_slice(), params_buffer)
    }

    /// Turns `providers` into registers and stores them in `registers`, which is
    /// cleared first.
    fn intern_into(
        &mut self,
        providers: &[TypedProvider],
        registers: &mut Vec<Register>,
    ) -> (result: Result<(), TranslationError>)
        requires
            old(self).wf(),
        ensures
            final(self).wf(),
            ({
                let interned = intern_all(old(self)@.consts, providers@);
                &&& result == interned.result()
                &&& final(self)@ == old(self)@.with_consts(interned.consts)
                &&& final(registers)@ == interned.registers
            }),
    {
        registers.clear();
        let mut i: usize = 0;
        while i < providers.len()
            invariant
                0 <= i <= providers.len(),
                self.wf(),
                intern_all(old(self)@.consts, providers@.take(i as int)).complete,
                self@ == old(self)@.with_consts(
                    intern_all(old(self)@.consts, providers@.take(i as int)).consts,
                ),
                registers@ == intern_all(
                    old(self)@.consts,
                    providers@.take(i as int),
                ).registers,
            decreases providers.len() - i,
        {
            proof {
                assert(providers@.take(i + 1).drop_last() =~= providers@.take(i as int));
                assert(providers@.take(i + 1).last() == providers@[i as int]);
            }
            let register = match providers[i] {
                Provider::Register(register) => register,
                Provider::Const(value) => {
                    match self.alloc_const(value) {
                        Ok(register) => register,
                        Err(error) => {
                            proof {
                                lemma_intern_all_stops(old(self)@.consts, providers@, i + 1);
                            }
                            return Err(error);
                        },
                    }
                },
            };
            registers.push(register);
            i = i + 1;
        }
        assert(providers@.take(i as int) =~= providers@);
        Ok(())
    }

    /// Turns the `n` top-most providers into registers and stores them in
    /// `results`, which is cleared first. The top-most provider comes last.
    ///
    /// The providers stay on the value stack. Constant values are allocated as
    /// function local constant values.
    ///
    /// # Errors
    ///
    /// If too many constant values are allocated. `results` holds the registers of
    /// the providers below the one that failed then.
    pub fn peek_n_as_registers(&mut self, n: usize, results: &mut Vec<Register>) -> (result: Result<
        (),
        TranslationError,
    >)
        requires
            old(self).wf(),
            n <= old(self)@.height(),
        ensures
            final(self).wf(),
            ({
                let interned = intern_all(old(self)@.consts, old(self)@.top(n as int));
                &&& result == interned.result()
                &&& final(self)@ == old(self)@.with_consts(interned.consts)
                &&& final(results)@ == interned.registers
            }),
    {
        let mut peeked: Vec<TypedProvider> = Vec::new();
        self.peek_n(n, &mut peeked);
        self.intern_into(peeked.as_slice(), results)
    }

    /// Pushes the given `providers`, the last one on top.
    ///
    /// # Errors
    ///
    /// If too many registers have been registered. The providers before the one
    /// that failed are pushed then.
    pub fn push_n(&mut self, providers: &[TypedProvider]) -> (result: Result<(), TranslationError>)
        requires
            old(self).wf(),
            forall|i: int| 0 <= i < providers@.len() ==> old(self)@.can_take(#[trigger] providers@[i]),
        ensures
            final(self).wf(),
            final(self)@ == old(self)@.push_all(providers@).0,
            result == old(self)@.push_all(providers@).1,
    {
        let mut i: usize = 0;
        while i < providers.len()
            invariant
                0 <= i <= providers.len(),
                self.wf(),
                forall|i: int|
                    0 <= i < providers@.len() ==> self@.can_take(#[trigger] providers@[i]),
                self@ == old(self)@.push_all(providers@.take(i as int)).0,
                old(self)@.push_all(providers@.take(i as int)).1 is Ok,
            decreases providers.len() - i,
        {
            proof {
                assert(providers@.take(i + 1).drop_last() =~= providers@.take(i as int));
                assert(providers@.take(i + 1).last() == providers@[i as int]);
            }
            if let Err(error) = self.push_provider(providers[i]) {
                proof {
                    lemma_push_all_stops(old(self)@, providers@, i + 1);
                }
                return Err(error);
            }
            i = i + 1;
        }
        assert(providers@.take(i as int) =~= providers@);
        Ok(())
    }

    /// Pushes `n` contiguous dynamically allocated registers and returns their
    /// span.
    ///
    /// # Errors
    ///
    /// If more registers would be allocated than are available. Nothing changes
    /// then.
    pub fn push_dynamic_n(&mut self, n: usize) -> (result: Result<RegisterSpan, TranslationError>)
        requires
            old(self).wf(),
            old(self)@.registers.phase is Alloc,
        ensures
            final(self).wf(),
            if old(self)@.registers.can_push_dynamic(n as int) {
                &&& result == Ok::<RegisterSpan, TranslationError>(
                    (RegisterSpan { head: Register::at(old(self)@.registers.next_dynamic) }),
                )
                &&& final(self)@ == old(self)@.pushed_dynamic(n as nat)
            } else {
                &&& result == Err::<RegisterSpan, TranslationError>(too_many_registers())
                &&& final(self)@ == old(self)@
            },
    {
        let registers = match self.reg_alloc.push_dynamic_n(n) {
            Ok(registers) => registers,
            Err(error) => {
                return Err(error);
            },
        };
        let mut iter = registers.iter(n);
        let ghost all = iter@;
        let ghost mut i: int = 0;
        loop
            invariant
                iter.wf(),
                0 <= i <= all.len(),
                iter@ == all.skip(i),
                self.reg_alloc@ == old(self)@.registers.push_dynamic(n as int),
                self.consts == old(self).consts,
                self@.providers == old(self)@.providers + tagged_dynamic(all.take(i)),
            ensures
                iter@.len() == 0,
            decreases iter@.len(),
        {
            let register = match iter.next() {
                Some(register) => register,
                None => {
                    break;
                },
            };
            self.providers.push_dynamic(register);
            proof {
                i = i + 1;
                assert(tagged_dynamic(all.take(i)) =~= tagged_dynamic(all.take(i - 1)).push(
                    TaggedProvider::Dynamic(register),
                ));
            }
        }
        proof {
            assert(all.take(i) =~= all);
            lemma_pushed_dynamic_valid(old(self)@, n as nat);
        }
        Ok(registers)
    }

    /// Returns the span of `n` contiguous registers as if they were dynamically
    /// allocated. Nothing is pushed onto the value stack.
    ///
    /// # Errors
    ///
    /// If more registers would be allocated than are available. Nothing changes
    /// then.
    pub fn peek_dynamic_n(&mut self, n: usize) -> (result: Result<RegisterSpan, TranslationError>)
        requires
            old(self).wf(),
            old(self)@.registers.phase is Alloc,
        ensures
            final(self).wf(),
            if old(self)@.registers.can_push_dynamic(n as int) {
                &&& result == Ok::<RegisterSpan, TranslationError>(
                    (RegisterSpan { head: Register::at(old(self)@.registers.next_dynamic) }),
                )
                &&& final(self)@ == old(self)@.peeked_dynamic(n as nat)
            } else {
                &&& result == Err::<RegisterSpan, TranslationError>(too_many_registers())
                &&& final(self)@ == old(self)@
            },
    {
        let registers = match self.reg_alloc.push_dynamic_n(n) {
            Ok(registers) => registers,
            Err(error) => {
                return Err(error);
            },
        };
        self.reg_alloc.pop_dynamic_n(n);
        Ok(registers)
    }

    /// Registers the user of a register if the register is allocated in storage
    /// space.
    ///
    /// This needs no more than register spaces that are in order, whether or not
    /// storage space is in use.
    pub fn register_user(&mut self, reg: Register, user: Instr)
        requires
            old(self)@.registers.valid(),
        ensures
            final(self)@.registers.valid(),
            old(self).wf() ==> final(self).wf(),
            final(self)@ == (ValueStackView {
                registers: old(self)@.registers.with_user(reg, user),
                ..old(self)@
            }),
    {
        self.reg_alloc.register_user(reg, user)
    }

    /// Defragments the allocated register space: replaces the storage registers in
    /// their registered users so that they follow the dynamic registers.
    pub fn defrag<S: DefragRegister>(&mut self, state: &mut S)
        requires
            old(self).wf(),
            old(self)@.registers.phase is Alloc,
        ensures
            final(self).wf(),
            final(self)@ == (ValueStackView {
                registers: old(self)@.registers.defragmented(),
                ..old(self)@
            }),
            final(state).defrag_state() == old(self)@.registers.defragged::<S>(
                old(state).defrag_state(),
                old(self)@.registers.users.len(),
            ),
            final(state).defrag_state() == old(state).defrag_state(),
    {
        assert(self@.registers.users.len() == 0) by {
            if self@.registers.users.len() > 0 {
                assert(self@.registers.is_storage(self@.registers.users[0].register));
            }
        }
        self.reg_alloc.defrag(state)
    }
}

} // verus!
