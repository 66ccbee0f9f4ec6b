//! Registers and contiguous spans of them.
use crate::bytecode::provider::{Provider, TypedProvider};
use vstd::prelude::*;

verus! {

/// A register of the function frame.
///
/// Registers with a negative index hold the function local constant values:
/// index `-1` is the first allocated one.
#[derive(Debug, Clone, Copy, PartialEq, Eq, Structural)]
pub struct Register {
    /// The index of the register.
    pub index: i16,
}

impl Register {
    /// The register with the given index.
    pub open spec fn at(index: int) -> Register {
        Register { index: index as i16 }
    }

    /// Creates the register with the given index.
    pub fn from_i16(index: i16) -> (register: Self)
        ensures
            register.index == index,
    {
        Register { index }
    }

    /// Returns the index of the register.
    pub fn to_i16(self) -> (index: i16)
        ensures
            index == self.index,
    {
        self.index
    }

    /// Becomes the register `to` if it is the register `from`.
    pub fn replace(&mut self, from: Register, to: Register)
        ensures
            *final(self) == (if *old(self) == from {
                to
            } else {
                *old(self)
            }),
    {
        if *self == from {
            *self = to;
        }
    }
}

/// The `len` registers from `head` on.
pub open spec fn register_range(head: int, len: nat) -> Seq<Register> {
    Seq::new(len, |i: int| Register::at(head + i))
}

/// Contiguous registers, given by the first one.
#[derive(Debug, Clone, Copy, PartialEq, Eq, Structural)]
pub struct RegisterSpan {
    /// The first register of the span.
    pub head: Register,
}

impl RegisterSpan {
    /// Creates the span that starts at `head`.
    pub fn new(head: Register) -> (span: Self)
        ensures
            span.head == head,
    {
        RegisterSpan { head }
    }

    /// Returns the first register of the span.
    pub fn head(self) -> (head: Register)
        ensures
            head == self.head,
    {
        self.head
    }

    /// Returns an iterator over the first `len` registers of the span.
    pub fn iter(self, len: usize) -> (iter: RegisterSpanIter)
        requires
            self.head.index + len <= i16::MAX,
        ensures
            iter.wf(),
            iter@ == register_range(self.head.index as int, len as nat),
            iter.next == self.head,
    {
        let last: i16 = (self.head.index as i32 + len as i32) as i16;
        RegisterSpanIter { next: self.head, last: Register { index: last } }
    }
}

/// An iterator over the registers of a span.
#[derive(Debug, Clone, Copy, PartialEq, Eq, Structural)]
pub struct RegisterSpanIter {
    /// The next register.
    pub next: Register,
    /// The register behind the last one.
    pub last: Register,
}

impl View for RegisterSpanIter {
    type V = Seq<Register>;

    /// The registers that are still to come.
    open spec fn view(&self) -> Seq<Register> {
        register_range(self.next.index as int, (self.last.index - self.next.index) as nat)
    }
}

/// Whether `providers` are exactly the given registers.
pub open spec fn are_registers(providers: Seq<TypedProvider>, registers: Seq<Register>) -> bool {
    &&& providers.len() == registers.len()
    &&& forall|i: int|
        0 <= i < providers.len() ==> #[trigger] providers[i] == TypedProvider::Register(
            registers[i],
        )
}

/// Whether `providers` are at least one register and have contiguous indices,
/// with an index left for the end of their span.
pub open spec fn is_contiguous(providers: Seq<TypedProvider>) -> bool {
    &&& providers.len() > 0
    &&& providers[0] matches Provider::Register(head)
    &&& head.index + providers.len() <= i16::MAX
    &&& are_registers(providers, register_range(head.index as int, providers.len()))
}

/// The span that contiguous providers make up.
pub open spec fn contiguous_span(providers: Seq<TypedProvider>) -> RegisterSpanIter
    recommends
        is_contiguous(providers),
{
    let head = providers[0]->Register_0;
    RegisterSpanIter { next: head, last: Register::at(head.index + providers.len()) }
}

impl RegisterSpanIter {
    /// The bounds of the span are in order.
    pub open spec fn wf(&self) -> bool {
        self.next.index <= self.last.index
    }

    /// Returns the number of registers that are still to come.
    pub fn len(&self) -> (len: usize)
        requires
            self.wf(),
        ensures
            len == self@.len(),
    {
        (self.last.index as i32 - self.next.index as i32) as usize
    }

    /// Returns the span from the next register on.
    pub fn span(self) -> (span: RegisterSpan)
        ensures
            span.head == self.next,
    {
        RegisterSpan { head: self.next }
    }

    /// Returns the next register and advances the iterator.
    pub fn next(&mut self) -> (result: Option<Register>)
        requires
            old(self).wf(),
        ensures
            final(self).wf(),
            match result {
                Some(register) => {
                    &&& old(self)@.len() > 0
                    &&& register == old(self)@[0]
                    &&& final(self)@ == old(self)@.drop_first()
                    &&& final(self).next.index == old(self).next.index + 1
                    &&& final(self).last == old(self).last
                },
                None => old(self)@.len() == 0 && *final(self) == *old(self),
            },
    {
        if self.next.index == self.last.index {
            return None;
        }
        let register = self.next;
        self.next = Register { index: self.next.index + 1 };
        assert(self@ =~= old(self)@.drop_first());
        Some(register)
    }

    /// Returns the span that the given providers already make up, if there is
    /// one: they are registers, at least one, and have contiguous indices.
    pub fn from_providers(providers: &[TypedProvider]) -> (result: Option<Self>)
        ensures
            result == (if is_contiguous(providers@) {
                Some(contiguous_span(providers@))
            } else {
                None
            }),
    {
        if providers.len() == 0 {
            return None;
        }
        let first = match providers[0] {
            Provider::Register(register) => register,
            Provider::Const(_) => {
                return None;
            },
        };
        let mut prev = first;
        let mut i: usize = 1;
        while i < providers.len()
            invariant
                1 <= i <= providers.len(),
                prev.index == first.index + i - 1,
                are_registers(
                    providers@.take(i as int),
                    register_range(first.index as int, i as nat),
                ),
                providers[0] == TypedProvider::Register(first),
            decreases providers.len() - i,
        {
            let next = match providers[i] {
                Provider::Register(register) => register,
                Provider::Const(_) => {
                    return None;
                },
            };
            if next.index as i32 - prev.index as i32 != 1 {
                assert(first.index + providers.len() <= i16::MAX ==> providers@[i as int]
                    != TypedProvider::Register(
                    register_range(first.index as int, providers@.len())[i as int],
                ));
                return None;
            }
            prev = next;
            i = i + 1;
        }
        if prev.index == i16::MAX {
            return None;
        }
        let last = Register { index: prev.index + 1 };
        assert(providers@.take(i as int) =~= providers@);
        Some(RegisterSpanIter { next: first, last })
    }
}

} // verus!
