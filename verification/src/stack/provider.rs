//! The stack of providers.
use crate::bytecode::provider::{Provider, TypedProvider};
use crate::bytecode::register::Register;
use crate::value::TypedValue;
use vstd::prelude::*;

verus! {

/// A provider that knows from which space its register comes.
#[derive(Debug, Clone, Copy, PartialEq, Eq, Structural)]
pub enum TaggedProvider {
    /// A register of a function parameter or local variable.
    Local(Register),
    /// A dynamically allocated register.
    Dynamic(Register),
    /// A register allocated in storage space.
    Storage(Register),
    /// A constant value.
    Const(TypedValue),
}

impl TaggedProvider {
    /// The provider without its tag.
    pub open spec fn untagged(self) -> TypedProvider {
        match self {
            TaggedProvider::Local(register) => Provider::Register(register),
            TaggedProvider::Dynamic(register) => Provider::Register(register),
            TaggedProvider::Storage(register) => Provider::Register(register),
            TaggedProvider::Const(value) => Provider::Const(value),
        }
    }

    /// Returns the provider without its tag.
    pub fn untag(self) -> (provider: TypedProvider)
        ensures
            provider == self.untagged(),
    {
        match self {
            TaggedProvider::Local(register)
            | TaggedProvider::Dynamic(register)
            | TaggedProvider::Storage(register) => Provider::Register(register),
            TaggedProvider::Const(value) => Provider::Const(value),
        }
    }
}

/// The providers without their tags.
pub open spec fn untagged_all(providers: Seq<TaggedProvider>) -> Seq<TypedProvider> {
    providers.map_values(|provider: TaggedProvider| provider.untagged())
}

/// The number of dynamically allocated registers among the providers.
pub open spec fn count_dynamic(providers: Seq<TaggedProvider>) -> nat
    decreases providers.len(),
{
    if providers.len() == 0 {
        0
    } else {
        count_dynamic(providers.drop_last()) + (if providers.last() is Dynamic {
            1nat
        } else {
            0nat
        })
    }
}

/// The dynamically allocated registers of a concatenation are those of its
/// parts.
pub proof fn lemma_count_dynamic_add(a: Seq<TaggedProvider>, b: Seq<TaggedProvider>)
    ensures
        count_dynamic(a + b) == count_dynamic(a) + count_dynamic(b),
    decreases b.len(),
{
    if b.len() == 0 {
        assert(a + b =~= a);
    } else {
        assert((a + b).drop_last() =~= a + b.drop_last());
        assert((a + b).last() == b.last());
        lemma_count_dynamic_add(a, b.drop_last());
    }
}

/// The stack of the providers that the translated instructions consume.
#[derive(Debug)]
pub struct ProviderStack {
    /// The providers, with the top-most one last.
    providers: Vec<TaggedProvider>,
}

impl View for ProviderStack {
    type V = Seq<TaggedProvider>;

    /// The providers, with the top-most one last.
    closed spec fn view(&self) -> Seq<TaggedProvider> {
        self.providers@
    }
}

impl Default for ProviderStack {
    fn default() -> (stack: Self)
        ensures
            stack@ == Seq::<TaggedProvider>::empty(),
    {
        ProviderStack { providers: Vec::new() }
    }
}

impl ProviderStack {
    /// Removes all providers.
    pub fn reset(&mut self)
        ensures
            final(self)@ == Seq::<TaggedProvider>::empty(),
    {
        self.providers.clear();
    }

    /// Returns the number of providers.
    pub fn len(&self) -> (len: usize)
        ensures
            len == self@.len(),
    {
        self.providers.len()
    }

    /// Pushes the register of a function parameter or local variable.
    pub fn push_local(&mut self, register: Register)
        ensures
            final(self)@ == old(self)@.push(TaggedProvider::Local(register)),
    {
        self.providers.push(TaggedProvider::Local(register));
    }

    /// Pushes a dynamically allocated register.
    pub fn push_dynamic(&mut self, register: Register)
        ensures
            final(self)@ == old(self)@.push(TaggedProvider::Dynamic(register)),
    {
        self.providers.push(TaggedProvider::Dynamic(register));
    }

    /// Pushes a constant value.
    pub fn push_const(&mut self, value: TypedValue)
        ensures
            final(self)@ == old(self)@.push(TaggedProvider::Const(value)),
    {
        self.providers.push(TaggedProvider::Const(value));
    }

    /// Pops the top-most provider.
    pub fn pop(&mut self) -> (provider: TaggedProvider)
        requires
            old(self)@.len() > 0,
        ensures
            provider == old(self)@.last(),
            final(self)@ == old(self)@.drop_last(),
    {
        self.providers.pop().unwrap()
    }

    /// Returns the top-most provider.
    pub fn peek(&self) -> (provider: TaggedProvider)
        requires
            self@.len() > 0,
        ensures
            provider == self@.last(),
    {
        self.providers[self.providers.len() - 1]
    }

    /// Returns the `n` top-most providers, with the top-most one last.
    pub fn peek_n(&self, n: usize) -> (providers: &[TaggedProvider])
        requires
            n <= self@.len(),
        ensures
            providers@ == self@.skip(self@.len() - n),
    {
        let len: usize = self.providers.len();
        let providers = vstd::slice::slice_subrange(self.providers.as_slice(), len - n, len);
        assert(providers@ =~= self@.skip(self@.len() - n));
        providers
    }
}

} // verus!
